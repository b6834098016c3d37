//! Descriptions of the devices a model can run on.

use vstd::prelude::*;
use crate::text::append_decimal;
use crate::text::append_str;
use crate::text::decimal_spec;
use crate::text::string_of;

verus! {

/// The kind of a compute device.
#[derive(Debug, Clone)]
pub enum DeviceType {
    Cpu { cores: usize },
    Cuda { device_id: usize, name: String },
    Metal { device_id: usize, name: String },
}

impl DeviceType {
    /// The name of the kind, as it is shown to people.
    pub open spec fn name_spec(&self) -> Seq<char> {
        match self {
            DeviceType::Cpu { .. } => "CPU"@,
            DeviceType::Cuda { .. } => "CUDA"@,
            DeviceType::Metal { .. } => "Metal"@,
        }
    }

    /// The name of the kind, as it is shown to people.
    pub fn name(&self) -> (name: &str)
        ensures
            name@ == self.name_spec(),
    {
        match self {
            DeviceType::Cpu { .. } => "CPU",
            DeviceType::Cuda { .. } => "CUDA",
            DeviceType::Metal { .. } => "Metal",
        }
    }

    /// Whether the device is a graphics processor.
    pub fn is_gpu(&self) -> (gpu: bool)
        ensures
            gpu == (self is Cuda || self is Metal),
    {
        match self {
            DeviceType::Cpu { .. } => false,
            DeviceType::Cuda { .. } => true,
            DeviceType::Metal { .. } => true,
        }
    }
}

/// What is known of one device.
#[derive(Debug, Clone)]
pub struct DeviceInfo {
    pub device_type: DeviceType,
    pub name: String,
    pub available_memory_mb: u64,
    pub used_memory_mb: u64,
    pub compute_capability: Option<String>,
    pub supported_dtypes: Vec<String>,
}

impl DeviceInfo {
    /// One line on the device: kind, name and available memory.
    pub open spec fn format_info_spec(&self) -> Seq<char> {
        self.device_type.name_spec() + ": "@ + self.name@ + " ("@ + decimal_spec(
            self.available_memory_mb as nat,
        ) + "MB доступно)"@
    }

    /// Writes one line on the device.
    pub fn format_info(&self) -> (line: String)
        ensures
            line@ == self.format_info_spec(),
    {
        let mut out: Vec<char> = Vec::new();
        append_str(&mut out, self.device_type.name());
        append_str(&mut out, ": ");
        append_str(&mut out, self.name.as_str());
        append_str(&mut out, " (");
        append_decimal(&mut out, self.available_memory_mb);
        append_str(&mut out, "MB доступно)");
        assert(out@ =~= self.format_info_spec());
        string_of(out.as_slice())
    }
}

/// The state of an operating-system process.
#[derive(Debug, Clone, Copy, PartialEq, Eq, Structural)]
pub enum ProcessStatus {
    Running,
    Sleeping,
    Zombie,
    Stopped,
}

} // verus!
