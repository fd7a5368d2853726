use vstd::prelude::*;
use vstd::multiset::Multiset;
use vstd::string::StringExecFns;
use crate::error::{EmbeddingError, EmbeddingErrorView};
use crate::model::ModelType;
use crate::unicode::same_text;

verus! {

/// One tensor of a weight container, as its header declares it.
#[derive(Clone, Debug, PartialEq, Eq)]
pub struct TensorEntry {
    /// The name under which the container holds the tensor.
    pub name: String,
    /// The name of the element type that the container declares.
    pub dtype: String,
    pub shape: Vec<usize>,
}

/// An element type that the runtime can hold.
#[derive(Clone, Copy, Debug, PartialEq, Eq, Hash, Structural)]
pub enum RuntimeDtype {
    U8,
    U32,
    I64,
    BF16,
    F16,
    F32,
    F64,
}

/// A tensor as the model graph takes it.
#[derive(Clone, Debug, PartialEq, Eq)]
pub struct PlannedTensor {
    /// The name under which the container holds the tensor.
    pub source: String,
    /// The name under which the model graph looks for it.
    pub name: String,
    pub dtype: RuntimeDtype,
    pub shape: Vec<usize>,
}

/// Mathematical value of a [`PlannedTensor`].
pub ghost struct PlannedTensorView {
    pub source: Seq<char>,
    pub name: Seq<char>,
    pub dtype: RuntimeDtype,
    pub shape: Seq<usize>,
}

impl View for PlannedTensor {
    type V = PlannedTensorView;

    open spec fn view(&self) -> PlannedTensorView {
        PlannedTensorView {
            source: self.source@,
            name: self.name@,
            dtype: self.dtype,
            shape: self.shape@,
        }
    }
}

/// The tensors that a buffer declares as a weight container, where it is one:
/// each by its name, the name of its element type and its shape, whatever
/// their order. What `safetensors::SafeTensors::deserialize` and `tensors`
/// make of the buffer.
pub uninterp spec fn container_tensors(buffer: Seq<u8>) -> Option<
    Multiset<(Seq<char>, Seq<char>, Seq<usize>)>,
>;

/// What a list of entries declares, whatever their order.
pub open spec fn declared(entries: Seq<TensorEntry>) -> Multiset<(Seq<char>, Seq<char>, Seq<usize>)> {
    entries.map_values(|e: TensorEntry| (e.name@, e.dtype@, e.shape@)).to_multiset()
}

/// The number of bytes that a container gives to the length of its header.
pub const LENGTH_BYTES: usize = 8;

/// The length of the header that a buffer of at least eight bytes declares:
/// its first eight bytes as a number, the lowest byte first.
pub open spec fn header_len(buffer: Seq<u8>) -> int {
    buffer[0] + 256 * (buffer[1] + 256 * (buffer[2] + 256 * (buffer[3] + 256 * (buffer[4] + 256 * (
    buffer[5] + 256 * (buffer[6] + 256 * buffer[7]))))))
}

/// Whether a byte is a decimal digit.
pub open spec fn is_digit_byte(b: u8) -> bool {
    48 <= b <= 57
}

/// Whether one of the `max + 1` bytes of `s` from position `i` on is no digit.
pub open spec fn other_within(s: Seq<u8>, i: int, max: int) -> bool {
    exists|k: int| i <= k <= i + max && !is_digit_byte(#[trigger] s[k])
}

/// Whether no number that `s` writes has more than `max` digits: among any
/// `max + 1` bytes in a row there is one that is no digit.
pub open spec fn digits_bounded(s: Seq<u8>, max: int) -> bool {
    forall|i: int| 0 <= i && i + max < s.len() ==> #[trigger] other_within(s, i, max)
}

/// The most digits that an offset in a header may have, so that the sizes
/// which the header declares can be added up in `usize`: 18 where `usize` has
/// 64 bits, 9 where it has 32.
pub open spec fn max_offset_digits() -> int {
    if usize::MAX > 0xffff_ffff {
        18
    } else {
        9
    }
}

/// Whether the header of a buffer can be read without overflow: the buffer is
/// too short to hold the header that it declares (which is then refused unread),
/// or no number in the header has more than [`max_offset_digits`] digits.
pub open spec fn header_guard(buffer: Seq<u8>) -> bool {
    ||| buffer.len() < LENGTH_BYTES
    ||| header_len(buffer) + LENGTH_BYTES > buffer.len()
    ||| digits_bounded(
        buffer.subrange(LENGTH_BYTES as int, LENGTH_BYTES + header_len(buffer)),
        max_offset_digits(),
    )
}

/// Whether no number that `bytes[from..to]` writes has more than `max` digits.
pub fn runs_bounded(bytes: &Vec<u8>, from: usize, to: usize, max: usize) -> (r: bool)
    requires
        from <= to <= bytes.len(),
    ensures
        r == digits_bounded(bytes@.subrange(from as int, to as int), max as int),
{
    let ghost s = bytes@.subrange(from as int, to as int);
    let mut i: usize = from;
    let mut run: usize = 0;
    while i < to
        invariant
            from <= i <= to <= bytes.len(),
            s == bytes@.subrange(from as int, to as int),
            run <= max,
            run <= i - from,
            forall|k: int| i - run <= k < i ==> is_digit_byte(bytes@[k]),
            run < i - from ==> !is_digit_byte(bytes@[i - run - 1]),
            forall|j: int| 0 <= j && j + max < i - from ==> #[trigger] other_within(s, j, max as int),
        decreases to - i,
    {
        let b = bytes[i];
        if b >= 48 && b <= 57 {
            if run == max {
                proof {
                    let j = i - from - max;
                    assert forall|k: int| j <= k <= j + max implies is_digit_byte(#[trigger] s[k]) by {
                        assert(s[k] == bytes@[k + from]);
                    }
                    assert(!other_within(s, j, max as int));
                }
                return false;
            }
            run = run + 1;
        } else {
            run = 0;
        }
        i = i + 1;
        proof {
            assert forall|j: int| 0 <= j && j + max < i - from implies #[trigger] other_within(
                s,
                j,
                max as int,
            ) by {
                if j + max == i - from - 1 {
                    let k = i - run - 1 - from;
                    assert(s[k] == bytes@[k + from]);
                    assert(j <= k <= j + max && !is_digit_byte(s[k]));
                }
            }
        }
    }
    true
}

/// The length of the header that a buffer declares.
pub fn read_header_len(buffer: &Vec<u8>) -> (n: u64)
    requires
        buffer.len() >= LENGTH_BYTES,
    ensures
        n == header_len(buffer@),
{
    let b7: u64 = buffer[7] as u64;
    let b6: u64 = buffer[6] as u64 + 256 * b7;
    let b5: u64 = buffer[5] as u64 + 256 * b6;
    let b4: u64 = buffer[4] as u64 + 256 * b5;
    let b3: u64 = buffer[3] as u64 + 256 * b4;
    let b2: u64 = buffer[2] as u64 + 256 * b3;
    let b1: u64 = buffer[1] as u64 + 256 * b2;
    buffer[0] as u64 + 256 * b1
}

/// Whether the header of a buffer can be read without overflow.
pub fn header_is_safe(buffer: &Vec<u8>) -> (safe: bool)
    ensures
        safe == header_guard(buffer@),
{
    if buffer.len() < LENGTH_BYTES {
        return true;
    }
    let n = read_header_len(buffer);
    let room: usize = buffer.len() - LENGTH_BYTES;
    if n > room as u64 {
        return true;
    }
    let max: usize = if usize::MAX > 0xffff_ffff {
        18
    } else {
        9
    };
    runs_bounded(buffer, LENGTH_BYTES, LENGTH_BYTES + n as usize, max)
}

/// `safetensors::SafeTensors::deserialize` and `tensors`, each tensor taken by
/// its name, the name of its element type and its shape. Whether the buffer is
/// a container, and which tensors it declares, depends on the buffer alone;
/// the order of the tensors is that of a hash map and differs from call to
/// call. A buffer that is no container gives the error's text. The outside
/// function adds the sizes that the header declares to the length of the
/// header without a check: the guard keeps the sum within `usize`.
#[verifier::external_body]
fn read_tensor_table(buffer: &Vec<u8>) -> (r: Result<Vec<TensorEntry>, String>)
    requires
        header_guard(buffer@),
    ensures
        match r {
            Ok(entries) => container_tensors(buffer@) == Some(declared(entries@)),
            Err(_) => container_tensors(buffer@) is None,
        },
{
    match safetensors::SafeTensors::deserialize(buffer) {
        Ok(tensors) => Ok(
            tensors.tensors().into_iter().map(
                |(name, view)|
                    TensorEntry {
                        name,
                        dtype: view.dtype().to_string(),
                        shape: view.shape().to_vec(),
                    },
            ).collect(),
        ),
        Err(e) => Err(e.to_string()),
    }
}

/// The element type of the runtime for the name of an element type of a
/// container, where the runtime has one.
pub open spec fn runtime_dtype(name: Seq<char>) -> Option<RuntimeDtype> {
    if name == "U8"@ {
        Some(RuntimeDtype::U8)
    } else if name == "F16"@ {
        Some(RuntimeDtype::F16)
    } else if name == "BF16"@ {
        Some(RuntimeDtype::BF16)
    } else if name == "U32"@ {
        Some(RuntimeDtype::U32)
    } else if name == "F32"@ {
        Some(RuntimeDtype::F32)
    } else if name == "F64"@ {
        Some(RuntimeDtype::F64)
    } else if name == "I64"@ {
        Some(RuntimeDtype::I64)
    } else {
        None
    }
}

/// Maps the element type that a container declares to that of the runtime. A
/// type that the runtime cannot hold is refused by name; nothing is narrowed.
pub fn to_candle_dtype(dtype: &str) -> (r: Result<RuntimeDtype, EmbeddingError>)
    ensures
        match r {
            Ok(d) => runtime_dtype(dtype@) == Some(d),
            Err(e) => runtime_dtype(dtype@) is None && e@ == (EmbeddingErrorView::UnsupportedDtype {
                name: dtype@,
            }),
        },
{
    if same_text(dtype, "U8") {
        Ok(RuntimeDtype::U8)
    } else if same_text(dtype, "F16") {
        Ok(RuntimeDtype::F16)
    } else if same_text(dtype, "BF16") {
        Ok(RuntimeDtype::BF16)
    } else if same_text(dtype, "U32") {
        Ok(RuntimeDtype::U32)
    } else if same_text(dtype, "F32") {
        Ok(RuntimeDtype::F32)
    } else if same_text(dtype, "F64") {
        Ok(RuntimeDtype::F64)
    } else if same_text(dtype, "I64") {
        Ok(RuntimeDtype::I64)
    } else {
        Err(EmbeddingError::UnsupportedDtype { name: dtype.to_owned() })
    }
}

/// What an architecture puts before the name of each tensor of a container to
/// get the name under which its model graph looks for the tensor, for the
/// architectures whose loading is known here.
pub open spec fn spec_weight_prefix(model_type: ModelType) -> Option<Seq<char>> {
    match model_type {
        ModelType::GraniteEnglishR2 => Some("model."@),
        ModelType::GraniteMultilingual => Some(""@),
        _ => None,
    }
}

/// The text of an optional prefix.
pub open spec fn prefix_text(prefix: Option<&'static str>) -> Option<Seq<char>> {
    match prefix {
        Some(p) => Some(p@),
        None => None,
    }
}

/// What an architecture puts before the name of each tensor of a container, for
/// the architectures whose loading is known here.
pub fn weight_prefix(model_type: ModelType) -> (prefix: Option<&'static str>)
    ensures
        prefix_text(prefix) == spec_weight_prefix(model_type),
{
    match model_type {
        ModelType::GraniteEnglishR2 => Some("model."),
        ModelType::GraniteMultilingual => Some(""),
        _ => None,
    }
}

/// The tensor that the model graph takes for a tensor of a container, where
/// the runtime can hold its element type.
pub open spec fn planned_tensor(prefix: Seq<char>, entry: TensorEntry) -> Result<
    PlannedTensorView,
    EmbeddingErrorView,
> {
    match runtime_dtype(entry.dtype@) {
        Some(dtype) => Ok(
            PlannedTensorView {
                source: entry.name@,
                name: prefix + entry.name@,
                dtype,
                shape: entry.shape@,
            },
        ),
        None => Err(EmbeddingErrorView::UnsupportedDtype { name: entry.dtype@ }),
    }
}

/// The tensors that the model graph takes for those of a container, in their
/// order; the first tensor whose element type the runtime cannot hold fails
/// the whole.
pub open spec fn planned(prefix: Seq<char>, entries: Seq<TensorEntry>) -> Result<
    Seq<PlannedTensorView>,
    EmbeddingErrorView,
>
    decreases entries.len(),
{
    if entries.len() == 0 {
        Ok(Seq::empty())
    } else {
        match planned(prefix, entries.drop_last()) {
            Err(e) => Err(e),
            Ok(list) => match planned_tensor(prefix, entries.last()) {
                Ok(tensor) => Ok(list.push(tensor)),
                Err(e) => Err(e),
            },
        }
    }
}

/// A container whose beginning fails, fails in the same way.
pub proof fn lemma_planned_fail(prefix: Seq<char>, entries: Seq<TensorEntry>, n: int)
    requires
        0 <= n <= entries.len(),
        planned(prefix, entries.take(n)) is Err,
    ensures
        planned(prefix, entries) == planned(prefix, entries.take(n)),
    decreases entries.len(),
{
    if n == entries.len() {
        assert(entries.take(n) =~= entries);
    } else {
        assert(entries.drop_last().take(n) =~= entries.take(n));
        lemma_planned_fail(prefix, entries.drop_last(), n);
    }
}

/// The values of a list of planned tensors.
pub open spec fn plan_view(list: Seq<PlannedTensor>) -> Seq<PlannedTensorView> {
    list.map_values(|t: PlannedTensor| t@)
}

/// Copies a shape.
fn copy_shape(shape: &Vec<usize>) -> (copy: Vec<usize>)
    ensures
        copy@ == shape@,
{
    let mut copy: Vec<usize> = Vec::new();
    let mut i: usize = 0;
    while i < shape.len()
        invariant
            0 <= i <= shape.len(),
            copy@ == shape@.take(i as int),
        decreases shape.len() - i,
    {
        copy.push(shape[i]);
        proof {
            assert(shape@.take(i + 1) =~= shape@.take(i as int).push(shape@[i as int]));
        }
        i = i + 1;
    }
    proof {
        assert(shape@.take(i as int) =~= shape@);
    }
    copy
}

/// Plans the tensors of a model graph from the header of a weight container:
/// each tensor gets the element type of the runtime and the name under which
/// the graph looks for it. An element type that the runtime cannot hold fails
/// the whole, by the name of the type.
pub fn plan_weights(prefix: &str, entries: &Vec<TensorEntry>) -> (r: Result<
    Vec<PlannedTensor>,
    EmbeddingError,
>)
    ensures
        match r {
            Ok(list) => planned(prefix@, entries@) == Ok::<
                Seq<PlannedTensorView>,
                EmbeddingErrorView,
            >(plan_view(list@)),
            Err(e) => planned(prefix@, entries@) == Err::<
                Seq<PlannedTensorView>,
                EmbeddingErrorView,
            >(e@),
        },
{
    let mut list: Vec<PlannedTensor> = Vec::new();
    let mut i: usize = 0;
    proof {
        assert(plan_view(list@) =~= Seq::<PlannedTensorView>::empty());
    }
    while i < entries.len()
        invariant
            0 <= i <= entries.len(),
            planned(prefix@, entries@.take(i as int)) == Ok::<
                Seq<PlannedTensorView>,
                EmbeddingErrorView,
            >(plan_view(list@)),
        decreases entries.len() - i,
    {
        proof {
            assert(entries@.take(i + 1).drop_last() =~= entries@.take(i as int));
            assert(entries@.take(i + 1).last() == entries@[i as int]);
        }
        let entry = &entries[i];
        match to_candle_dtype(entry.dtype.as_str()) {
            Ok(dtype) => {
                let mut name = prefix.to_owned();
                name.append(entry.name.as_str());
                let tensor = PlannedTensor {
                    source: entry.name.clone(),
                    name,
                    dtype,
                    shape: copy_shape(&entry.shape),
                };
                let ghost before = plan_view(list@);
                list.push(tensor);
                proof {
                    assert(plan_view(list@) =~= before.push(tensor@));
                }
            },
            Err(e) => {
                proof {
                    assert(planned(prefix@, entries@.take(i + 1)) == Err::<
                        Seq<PlannedTensorView>,
                        EmbeddingErrorView,
                    >(e@));
                    lemma_planned_fail(prefix@, entries@, i + 1);
                }
                return Err(e);
            },
        }
        i = i + 1;
    }
    proof {
        assert(entries@.take(i as int) =~= entries@);
    }
    Ok(list)
}

/// Whether `r` is the plan that [`plan_weights`] makes of some list of the
/// tensors that a buffer declares.
pub open spec fn plan_of_container(
    prefix: Seq<char>,
    buffer: Seq<u8>,
    r: Result<Seq<PlannedTensorView>, EmbeddingErrorView>,
) -> bool {
    exists|entries: Seq<TensorEntry>|
        container_tensors(buffer) == Some(declared(entries)) && #[trigger] planned(prefix, entries)
            == r
}

/// Plans the tensors of a model graph from a weight container: the tensors
/// that the container declares, each with the element type of the runtime and
/// with `prefix` before its name. The order of the tensors is not fixed. A
/// buffer that is no container is an inference error, and so is one whose
/// header writes a number too long to be a size; an element type that the
/// runtime cannot hold fails the whole, by the name of the type.
pub fn weights_plan(prefix: &str, buffer: &Vec<u8>) -> (r: Result<Vec<PlannedTensor>, EmbeddingError>)
    ensures
        match r {
            Ok(list) => header_guard(buffer@) && plan_of_container(
                prefix@,
                buffer@,
                Ok(plan_view(list@)),
            ),
            Err(e) => if e is InferenceError {
                !header_guard(buffer@) || container_tensors(buffer@) is None
            } else {
                header_guard(buffer@) && plan_of_container(prefix@, buffer@, Err(e@))
            },
        },
{
    if !header_is_safe(buffer) {
        return Err(
            EmbeddingError::InferenceError { detail: "a size in the header is too long".to_owned() },
        );
    }
    match read_tensor_table(buffer) {
        Ok(entries) => {
            let r = plan_weights(prefix, &entries);
            proof {
                lemma_planned_errors(prefix@, entries@);
            }
            r
        },
        Err(detail) => Err(EmbeddingError::InferenceError { detail }),
    }
}

/// A plan fails only on an element type that the runtime cannot hold.
pub proof fn lemma_planned_errors(prefix: Seq<char>, entries: Seq<TensorEntry>)
    ensures
        planned(prefix, entries) is Err ==> planned(prefix, entries)->Err_0 is UnsupportedDtype,
    decreases entries.len(),
{
    if entries.len() > 0 {
        lemma_planned_errors(prefix, entries.drop_last());
    }
}

} // verus!
