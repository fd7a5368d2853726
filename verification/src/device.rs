use vstd::prelude::*;

verus! {

/// The operating system that the program runs on, as far as devices go.
#[derive(Clone, Copy, Debug, PartialEq, Eq, Structural)]
pub enum Platform {
    Windows,
    Linux,
    MacOs,
    Other,
}

/// The device that a model is bound to when it is loaded.
#[derive(Clone, Copy, Debug, PartialEq, Eq, Structural)]
pub enum DeviceChoice {
    Cpu,
    Cuda { ordinal: usize },
    Metal { ordinal: usize },
}

/// The device for a model: the processor where it is asked for; else the
/// first CUDA device on Windows and Linux where CUDA is there, the first Metal
/// device on macOS where Metal is there, and the processor where neither is.
pub open spec fn device_for(use_cpu: bool, platform: Platform, cuda: bool, metal: bool) -> DeviceChoice {
    if use_cpu {
        DeviceChoice::Cpu
    } else if (platform == Platform::Windows || platform == Platform::Linux) && cuda {
        DeviceChoice::Cuda { ordinal: 0 }
    } else if platform == Platform::MacOs && metal {
        DeviceChoice::Metal { ordinal: 0 }
    } else {
        DeviceChoice::Cpu
    }
}

/// Picks the device for a model. This is done once, when the model is loaded.
pub fn select_device(use_cpu: bool, platform: Platform, cuda: bool, metal: bool) -> (device:
    DeviceChoice)
    ensures
        device == device_for(use_cpu, platform, cuda, metal),
{
    if use_cpu {
        DeviceChoice::Cpu
    } else {
        match platform {
            Platform::Windows | Platform::Linux => if cuda {
                DeviceChoice::Cuda { ordinal: 0 }
            } else {
                DeviceChoice::Cpu
            },
            Platform::MacOs => if metal {
                DeviceChoice::Metal { ordinal: 0 }
            } else {
                DeviceChoice::Cpu
            },
            Platform::Other => DeviceChoice::Cpu,
        }
    }
}

/// A request for the processor is always met, whatever the machine offers.
pub proof fn lemma_cpu_on_request(platform: Platform, cuda: bool, metal: bool)
    ensures
        device_for(true, platform, cuda, metal) == DeviceChoice::Cpu,
{
}

/// Without an accelerator the processor is used: that is no failure.
pub proof fn lemma_cpu_fallback(use_cpu: bool, platform: Platform)
    ensures
        device_for(use_cpu, platform, false, false) == DeviceChoice::Cpu,
{
}

} // verus!
