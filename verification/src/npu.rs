//! The NPUs of the system.

use vstd::prelude::*;

use crate::link::{Link, LinkData};
use crate::number;
use crate::pci_slot;
use crate::pci_slot::PciSlot;
use crate::process_data;
use crate::text;

verus! {

pub const VID_AMD: u16 = 0x1002;

pub const VID_AMD_CPU: u16 = 0x1022;

pub const VID_INTEL: u16 = 0x8086;

/// The maker of a device.
pub struct Vendor {
    pub name: String,
}

/// A device that the list of PCI devices knows.
pub struct Device {
    pub name: String,
    pub vendor: Vendor,
}

/// What is known of an NPU.
pub struct NpuDevice {
    pub device: Option<Device>,
    pub pci_slot: PciSlot,
    pub driver: String,
    pub sysfs_path: String,
    pub first_hwmon: Option<String>,
}

/// An NPU, by the maker of which its sensors are read.
pub enum Npu {
    Amd(NpuDevice),
    Intel(NpuDevice),
    Other(NpuDevice),
}

/// The maker by which the sensors of an NPU are read.
#[derive(Debug, Clone, Copy, PartialEq, Eq, Structural)]
pub enum NpuCategory {
    Amd,
    Intel,
    Other,
}

/// What the kernel tells of a device in its file `uevent`.
pub struct Uevent {
    pub pci_id: Option<String>,
    pub pci_slot_name: Option<String>,
    pub driver: Option<String>,
}

/// Why a device is no NPU, or a question about an NPU has no answer.
#[derive(Debug, Clone, Copy, PartialEq, Eq, Structural)]
pub enum NpuError {
    /// The address of the device cannot be read.
    InvalidSlot,
    /// The device is a simple frame buffer.
    SimpleFramebuffer,
    /// The device is not in the list of PCI devices.
    NoDevice,
    /// The connection of the device cannot be read.
    NoLink,
    /// The device has no sensors.
    NoHwmon,
}

/// The value of a hexadecimal number; 0 where it is none.
pub open spec fn hex_or_zero(s: Seq<char>) -> u16 {
    match number::parse_unsigned(s, 16, u16::MAX as int) {
        Some(v) => v as u16,
        None => 0,
    }
}

/// The vendor and the product that a PCI identifier names; 0 for each that it does not.
pub open spec fn ids_of(pci_id: Option<Seq<char>>) -> (u16, u16) {
    match pci_id {
        Some(s) => match text::split_once(s, ':') {
            Some((vid, pid)) => (hex_or_zero(vid), hex_or_zero(pid)),
            None => (0, 0),
        },
        None => (0, 0),
    }
}

fn hex(s: &Vec<char>) -> (r: u16)
    ensures
        r == hex_or_zero(s@),
{
    match number::parse_u16_chars(s, 16) {
        Some(v) => v,
        None => 0,
    }
}

impl Uevent {
    /// Reads the contents of the file, which holds lines `name=value`.
    pub fn parse(content: &str) -> (r: Self)
        ensures
            text::opt_text(r.pci_id) == process_data::env_value(
                text::lines(content@),
                "PCI_ID"@,
            ),
            text::opt_text(r.pci_slot_name) == process_data::env_value(
                text::lines(content@),
                "PCI_SLOT_NAME"@,
            ),
            text::opt_text(r.driver) == process_data::env_value(
                text::lines(content@),
                "DRIVER"@,
            ),
    {
        let lines: Vec<Vec<char>> = text::lines_chars(&text::to_chars(content));
        Uevent {
            pci_id: process_data::environment_value(&lines, "PCI_ID"),
            pci_slot_name: process_data::environment_value(&lines, "PCI_SLOT_NAME"),
            driver: process_data::environment_value(&lines, "DRIVER"),
        }
    }

    /// The vendor and the product of the device.
    pub fn pci_ids(&self) -> (r: (u16, u16))
        ensures
            r == ids_of(text::opt_text(self.pci_id)),
    {
        match &self.pci_id {
            Some(s) => match text::split_once_chars(&text::to_chars(s.as_str()), ':') {
                Some((vid, pid)) => (hex(&vid), hex(&pid)),
                None => (0, 0),
            },
            None => (0, 0),
        }
    }
}

/// The maker by which the sensors are read: Intel's and then AMD's, by the vendor or by
/// the driver.
pub open spec fn category_of(vid: u16, driver: Seq<char>) -> NpuCategory {
    if vid == VID_INTEL || driver == "intel_vpu"@ {
        NpuCategory::Intel
    } else if vid == VID_AMD || vid == VID_AMD_CPU || driver == "amdxdna"@ {
        NpuCategory::Amd
    } else {
        NpuCategory::Other
    }
}

/// The text, or another one where there is none.
pub open spec fn text_or(s: Option<Seq<char>>, other: Seq<char>) -> Seq<char> {
    match s {
        Some(s) => s,
        None => other,
    }
}

/// Why a device is no NPU: its address cannot be read, or it is a simple frame buffer.
pub open spec fn rejection(
    slot_name: Option<Seq<char>>,
    driver: Option<Seq<char>>,
    unknown: Seq<char>,
) -> Option<NpuError> {
    if pci_slot::parse_slot(text_or(slot_name, unknown)) is None {
        Some(NpuError::InvalidSlot)
    } else if text_or(driver, unknown) == "simple-framebuffer"@ {
        Some(NpuError::SimpleFramebuffer)
    } else {
        None
    }
}

/// The category of an NPU.
pub open spec fn npu_category(npu: Npu) -> NpuCategory {
    match npu {
        Npu::Amd(_) => NpuCategory::Amd,
        Npu::Intel(_) => NpuCategory::Intel,
        Npu::Other(_) => NpuCategory::Other,
    }
}

/// What is known of an NPU.
pub open spec fn npu_device(npu: Npu) -> NpuDevice {
    match npu {
        Npu::Amd(d) => d,
        Npu::Intel(d) => d,
        Npu::Other(d) => d,
    }
}

fn or_text(s: &Option<String>, other: &str) -> (r: String)
    ensures
        r@ == text_or(text::opt_text(*s), other@),
{
    match s {
        Some(s) => s.clone(),
        None => other.to_string(),
    }
}

impl Npu {
    /// The NPU at a path, from what the kernel tells of it. `device` is what the list of
    /// PCI devices knows of it, `first_hwmon` its first directory of sensors, and
    /// `unknown` stands for what the kernel does not tell.
    pub fn from_sysfs_path(
        path: String,
        uevent: &Uevent,
        device: Option<Device>,
        first_hwmon: Option<String>,
        unknown: &str,
    ) -> (r: Result<Self, NpuError>)
        ensures
            match r {
                Ok(npu) => {
                    &&& rejection(
                        text::opt_text(uevent.pci_slot_name),
                        text::opt_text(uevent.driver),
                        unknown@,
                    ) is None
                    &&& npu_category(npu) == category_of(
                        ids_of(text::opt_text(uevent.pci_id)).0,
                        npu_device(npu).driver@,
                    )
                    &&& npu_device(npu).device == device
                    &&& npu_device(npu).driver@ == text_or(text::opt_text(uevent.driver), unknown@)
                    &&& npu_device(npu).sysfs_path == path
                    &&& npu_device(npu).first_hwmon == first_hwmon
                    &&& pci_slot::parse_slot(
                        text_or(text::opt_text(uevent.pci_slot_name), unknown@),
                    ) == Some(npu_device(npu).pci_slot)
                },
                Err(e) => rejection(
                    text::opt_text(uevent.pci_slot_name),
                    text::opt_text(uevent.driver),
                    unknown@,
                ) == Some(e),
            },
    {
        let (vid, _): (u16, u16) = uevent.pci_ids();
        let slot_name: String = or_text(&uevent.pci_slot_name, unknown);
        let Ok(pci_slot) = PciSlot::from_str(slot_name.as_str()) else {
            return Err(NpuError::InvalidSlot);
        };
        let driver: String = or_text(&uevent.driver, unknown);
        if text::same_text(driver.as_str(), "simple-framebuffer") {
            return Err(NpuError::SimpleFramebuffer);
        }
        let intel: bool = vid == VID_INTEL || text::same_text(driver.as_str(), "intel_vpu");
        let amd: bool = vid == VID_AMD || vid == VID_AMD_CPU || text::same_text(
            driver.as_str(),
            "amdxdna",
        );
        let npu = NpuDevice { device, pci_slot, driver, sysfs_path: path, first_hwmon };
        if intel {
            Ok(Npu::Intel(npu))
        } else if amd {
            Ok(Npu::Amd(npu))
        } else {
            Ok(Npu::Other(npu))
        }
    }

    /// What is known of the NPU.
    pub fn info(&self) -> (r: &NpuDevice)
        ensures
            *r == npu_device(*self),
    {
        match self {
            Npu::Amd(d) => d,
            Npu::Intel(d) => d,
            Npu::Other(d) => d,
        }
    }

    /// The address of the NPU.
    pub fn pci_slot(&self) -> (r: PciSlot)
        ensures
            r == npu_device(*self).pci_slot,
    {
        self.info().pci_slot
    }

    /// The maker of the NPU.
    pub fn get_vendor(&self) -> (r: Result<&Vendor, NpuError>)
        ensures
            match r {
                Ok(vendor) => npu_device(*self).device matches Some(d) && *vendor == d.vendor,
                Err(e) => npu_device(*self).device is None && e == NpuError::NoDevice,
            },
    {
        match &self.info().device {
            Some(device) => Ok(&device.vendor),
            None => Err(NpuError::NoDevice),
        }
    }

    /// The name of the NPU in the list of PCI devices.
    pub fn drm_name(&self) -> (r: Result<&String, NpuError>)
        ensures
            match r {
                Ok(name) => npu_device(*self).device matches Some(d) && *name == d.name,
                Err(e) => npu_device(*self).device is None && e == NpuError::NoDevice,
            },
    {
        match &self.info().device {
            Some(device) => Ok(&device.name),
            None => Err(NpuError::NoDevice),
        }
    }

    /// The connection of the NPU, given what could be read at its address.
    pub fn link(&self, at_slot: Option<LinkData>) -> (r: Result<Link, NpuError>)
        ensures
            match r {
                Ok(link) => at_slot matches Some(data) && link == Link::Pcie(data),
                Err(e) => at_slot is None && e == NpuError::NoLink,
            },
    {
        match at_slot {
            Some(data) => Ok(Link::Pcie(data)),
            None => Err(NpuError::NoLink),
        }
    }

    /// The first directory of sensors.
    pub fn hwmon_path(&self) -> (r: Result<&String, NpuError>)
        ensures
            match r {
                Ok(path) => npu_device(*self).first_hwmon == Some(*path),
                Err(e) => npu_device(*self).first_hwmon is None && e == NpuError::NoHwmon,
            },
    {
        match &self.info().first_hwmon {
            Some(path) => Ok(path),
            None => Err(NpuError::NoHwmon),
        }
    }
}

// Sensors ---------------------------------------------------------------------------------

/// What a file of an NPU holds.
#[derive(Debug, Clone, Copy, PartialEq, Eq, Structural)]
pub enum NpuFile {
    /// How busy it is, in percent.
    Usage,
    /// The temperature, in thousandths of a degree Celsius.
    Temperature,
    /// The power, in millionths of a watt.
    PowerUsage,
    /// The clock frequency, in hertz.
    CoreFrequency,
    /// The clock frequency of the memory, in hertz.
    MemoryFrequency,
    /// The limit of the power, in millionths of a watt.
    PowerCap,
    /// The largest limit of the power, in millionths of a watt.
    PowerCapMax,
}

/// Where a file stands, below the path of the NPU or below its sensors.
pub open spec fn file_of(file: NpuFile) -> Seq<char> {
    match file {
        NpuFile::Usage => "device/npu_busy_percent"@,
        NpuFile::Temperature => "temp1_input"@,
        NpuFile::PowerUsage => "power1_average"@,
        NpuFile::CoreFrequency => "freq1_input"@,
        NpuFile::MemoryFrequency => "freq2_input"@,
        NpuFile::PowerCap => "power1_cap"@,
        NpuFile::PowerCapMax => "power1_cap_max"@,
    }
}

/// By how much the number in a file is divided.
pub open spec fn divisor_of(file: NpuFile) -> u32 {
    match file {
        NpuFile::Temperature => 1000,
        NpuFile::PowerUsage | NpuFile::PowerCap | NpuFile::PowerCapMax => 1_000_000,
        _ => 1,
    }
}

/// Whether a file stands below the sensors.
pub open spec fn is_sensor(file: NpuFile) -> bool {
    file != NpuFile::Usage
}

impl NpuFile {
    /// Where the file stands.
    pub fn path(self) -> (r: &'static str)
        ensures
            r@ == file_of(self),
    {
        match self {
            NpuFile::Usage => "device/npu_busy_percent",
            NpuFile::Temperature => "temp1_input",
            NpuFile::PowerUsage => "power1_average",
            NpuFile::CoreFrequency => "freq1_input",
            NpuFile::MemoryFrequency => "freq2_input",
            NpuFile::PowerCap => "power1_cap",
            NpuFile::PowerCapMax => "power1_cap_max",
        }
    }

    /// By how much the number in the file is divided.
    pub fn divisor(self) -> (r: u32)
        ensures
            r == divisor_of(self),
            r > 0,
    {
        match self {
            NpuFile::Temperature => 1000,
            NpuFile::PowerUsage | NpuFile::PowerCap | NpuFile::PowerCapMax => 1_000_000,
            _ => 1,
        }
    }

    /// Whether the file stands below the sensors.
    pub fn below_hwmon(self) -> (r: bool)
        ensures
            r == is_sensor(self),
    {
        self != NpuFile::Usage
    }
}

/// A file of an NPU that holds a number of bytes.
#[derive(Debug, Clone, Copy, PartialEq, Eq, Structural)]
pub enum NpuMemoryFile {
    /// The memory in use.
    Used,
    /// All of the memory.
    Total,
}

/// Where a file stands, below the path of the NPU.
pub open spec fn memory_file_of(file: NpuMemoryFile) -> Seq<char> {
    match file {
        NpuMemoryFile::Used => "device/npu_memory_utilization"@,
        NpuMemoryFile::Total => "device/npu_memory_total"@,
    }
}

impl NpuMemoryFile {
    /// Where the file stands.
    pub fn path(self) -> (r: &'static str)
        ensures
            r@ == memory_file_of(self),
    {
        match self {
            NpuMemoryFile::Used => "device/npu_memory_utilization",
            NpuMemoryFile::Total => "device/npu_memory_total",
        }
    }
}

/// The number that the contents of a file denote.
pub open spec fn reading_of(content: Seq<char>) -> Option<int> {
    number::parse_signed(text::trim(content), i64::MIN as int, i64::MAX as int)
}

/// The number that the contents of a file denote.
pub fn parse_reading(content: &str) -> (r: Option<i64>)
    ensures
        match r {
            Some(v) => reading_of(content@) == Some(v as int),
            None => reading_of(content@) is None,
        },
{
    number::parse_i64_chars(&text::trim_chars(&text::to_chars(content)))
}

/// The number of bytes that the contents of a file denote.
pub open spec fn bytes_reading_of(content: Seq<char>) -> Option<int> {
    number::parse_unsigned(text::trim(content), 10, u64::MAX as int)
}

/// The number of bytes that the contents of a file denote.
pub fn parse_bytes_reading(content: &str) -> (r: Option<u64>)
    ensures
        match r {
            Some(v) => bytes_reading_of(content@) == Some(v as int),
            None => bytes_reading_of(content@) is None,
        },
{
    number::parse_u64_chars(&text::trim_chars(&text::to_chars(content)), 10)
}

/// A number that was read, and by how much it is to be divided.
#[derive(Debug, Clone, Copy, PartialEq, Eq, Structural)]
pub struct Reading {
    pub value: i64,
    pub divisor: u32,
}

/// Why a file of an NPU tells nothing.
#[derive(Debug, Clone, Copy, PartialEq, Eq, Structural)]
pub enum ReadingError {
    /// The NPU has no sensors.
    NoHwmon,
    /// The file cannot be read.
    Unreadable,
    /// The file holds no number.
    NotANumber,
}

/// What a file of an NPU tells, from its contents where it could be read.
pub open spec fn npu_reading(
    has_hwmon: bool,
    file: NpuFile,
    content: Option<Seq<char>>,
) -> Result<Reading, ReadingError> {
    if is_sensor(file) && !has_hwmon {
        Err(ReadingError::NoHwmon)
    } else {
        match content {
            None => Err(ReadingError::Unreadable),
            Some(s) => match reading_of(s) {
                Some(v) => Ok(Reading { value: v as i64, divisor: divisor_of(file) }),
                None => Err(ReadingError::NotANumber),
            },
        }
    }
}

impl Npu {
    /// What a file of the NPU tells, from its contents where it could be read.
    pub fn read(&self, file: NpuFile, content: &Option<String>) -> (r: Result<Reading, ReadingError>)
        ensures
            r == npu_reading(
                npu_device(*self).first_hwmon is Some,
                file,
                text::opt_text(*content),
            ),
    {
        if file.below_hwmon() && self.info().first_hwmon.is_none() {
            return Err(ReadingError::NoHwmon);
        }
        match content {
            None => Err(ReadingError::Unreadable),
            Some(s) => match parse_reading(s.as_str()) {
                Some(value) => Ok(Reading { value, divisor: file.divisor() }),
                None => Err(ReadingError::NotANumber),
            },
        }
    }
}

/// What a file tells that holds a number of bytes, from its contents where it could be
/// read.
pub open spec fn memory_reading(content: Option<Seq<char>>) -> Result<u64, ReadingError> {
    match content {
        None => Err(ReadingError::Unreadable),
        Some(s) => match bytes_reading_of(s) {
            Some(v) => Ok(v as u64),
            None => Err(ReadingError::NotANumber),
        },
    }
}

/// What a file tells that holds a number of bytes.
pub fn read_memory(content: &Option<String>) -> (r: Result<u64, ReadingError>)
    ensures
        r == memory_reading(text::opt_text(*content)),
{
    match content {
        None => Err(ReadingError::Unreadable),
        Some(s) => match parse_bytes_reading(s.as_str()) {
            Some(v) => Ok(v),
            None => Err(ReadingError::NotANumber),
        },
    }
}

impl Default for Npu {
    fn default() -> (r: Self)
        ensures
            npu_category(r) == NpuCategory::Other,
            npu_device(r).device is None,
            npu_device(r).pci_slot == pci_slot::zero_slot(),
            npu_device(r).driver@ == Seq::<char>::empty(),
            npu_device(r).sysfs_path@ == Seq::<char>::empty(),
            npu_device(r).first_hwmon is None,
    {
        let driver: String = String::new();
        let sysfs_path: String = String::new();
        proof {
            assert(driver@ =~= Seq::<char>::empty());
            assert(sysfs_path@ =~= Seq::<char>::empty());
        }
        Npu::Other(
            NpuDevice {
                device: None,
                pci_slot: PciSlot::default(),
                driver,
                sysfs_path,
                first_hwmon: None,
            },
        )
    }
}

/// What was read of an NPU, each where it could be.
pub struct NpuReadings {
    pub usage: Option<Reading>,
    pub total_memory: Option<u64>,
    pub used_memory: Option<u64>,
    pub clock_speed: Option<Reading>,
    pub vram_speed: Option<Reading>,
    pub curr_tops: Option<u64>,
    pub max_tops: Option<u64>,
    pub temperature: Option<Reading>,
    pub power_usage: Option<Reading>,
    pub power_cap: Option<Reading>,
    pub power_cap_max: Option<Reading>,
    pub link: Option<LinkData>,
}

/// What is known of an NPU at a moment.
pub struct NpuData {
    pub pci_slot: PciSlot,
    pub usage_fraction: Reading,
    pub total_memory: Option<u64>,
    pub used_memory: Option<u64>,
    pub clock_speed: Option<Reading>,
    pub vram_speed: Option<Reading>,
    pub curr_tops: Option<u64>,
    pub max_tops: Option<u64>,
    pub temperature: Option<Reading>,
    pub power_usage: Option<Reading>,
    pub power_cap: Option<Reading>,
    pub power_cap_max: Option<Reading>,
    pub link: Option<Link>,
}

impl NpuData {
    /// Gathers what was read of an NPU. One whose usage could not be read counts as
    /// idle.
    pub fn new(npu: &Npu, readings: NpuReadings) -> (r: Self)
        ensures
            r.pci_slot == npu_device(*npu).pci_slot,
            r.usage_fraction == match readings.usage {
                Some(usage) => usage,
                None => (Reading { value: 0, divisor: 1 }),
            },
            r.total_memory == readings.total_memory,
            r.used_memory == readings.used_memory,
            r.clock_speed == readings.clock_speed,
            r.vram_speed == readings.vram_speed,
            r.curr_tops == readings.curr_tops,
            r.max_tops == readings.max_tops,
            r.temperature == readings.temperature,
            r.power_usage == readings.power_usage,
            r.power_cap == readings.power_cap,
            r.power_cap_max == readings.power_cap_max,
            r.link == match readings.link {
                Some(data) => Some(Link::Pcie(data)),
                None => None,
            },
    {
        let usage_fraction: Reading = match readings.usage {
            Some(usage) => usage,
            None => Reading { value: 0, divisor: 1 },
        };
        let link: Option<Link> = match npu.link(readings.link) {
            Ok(link) => Some(link),
            Err(_) => None,
        };
        NpuData {
            pci_slot: npu.pci_slot(),
            usage_fraction,
            total_memory: readings.total_memory,
            used_memory: readings.used_memory,
            clock_speed: readings.clock_speed,
            vram_speed: readings.vram_speed,
            curr_tops: readings.curr_tops,
            max_tops: readings.max_tops,
            temperature: readings.temperature,
            power_usage: readings.power_usage,
            power_cap: readings.power_cap,
            power_cap_max: readings.power_cap_max,
            link,
        }
    }
}

/// Every device that the kernel tells the address of is an NPU, unless it is a simple
/// frame buffer.
pub proof fn addressed_device_accepted(
    slot: PciSlot,
    driver: Option<Seq<char>>,
    unknown: Seq<char>,
)
    requires
        text_or(driver, unknown) != "simple-framebuffer"@,
    ensures
        rejection(Some(pci_slot::slot_text(slot)), driver, unknown) is None,
{
    pci_slot::slot_round_trip(slot);
}

/// The sensors of an NPU are read as those of Intel where that is its vendor or the driver is
/// Intel's; else as those of AMD, in the same way; and all others as they are.
pub proof fn makers_by_vendor_or_driver(vid: u16, driver: Seq<char>)
    ensures
        category_of(vid, driver) == NpuCategory::Intel <==> vid == 0x8086 || driver
            == "intel_vpu"@,
        category_of(vid, driver) == NpuCategory::Amd <==> !(vid == 0x8086 || driver
            == "intel_vpu"@) && (vid == 0x1002 || vid == 0x1022 || driver == "amdxdna"@),
{
}

/// A PCI identifier names the vendor and then the product, each as a hexadecimal number.
pub proof fn vendor_before_product(vendor: Seq<char>, product: Seq<char>, v: u16, p: u16)
    requires
        forall|i: int| 0 <= i < vendor.len() ==> vendor[i] != ':',
        number::parse_unsigned(vendor, 16, u16::MAX as int) == Some(v as int),
        number::parse_unsigned(product, 16, u16::MAX as int) == Some(p as int),
    ensures
        ids_of(Some(vendor + seq![':'] + product)) == (v, p),
        ids_of(Some(vendor)) == (0u16, 0u16),
        ids_of(None) == (0u16, 0u16),
{
    text::split_at_every_separator(vendor, ':', product);
}

/// A device is no NPU where its address cannot be read, or else where it is a simple frame
/// buffer.
pub proof fn what_is_no_npu(
    slot_name: Option<Seq<char>>,
    driver: Option<Seq<char>>,
    unknown: Seq<char>,
)
    ensures
        ({
            let address = match slot_name {
                Some(s) => pci_slot::parse_slot(s),
                None => pci_slot::parse_slot(unknown),
            };
            let frame_buffer = match driver {
                Some(d) => d == "simple-framebuffer"@,
                None => unknown == "simple-framebuffer"@,
            };
            let r = rejection(slot_name, driver, unknown);
            &&& address is None ==> r == Some(NpuError::InvalidSlot)
            &&& address is Some && frame_buffer ==> r == Some(NpuError::SimpleFramebuffer)
            &&& address is Some && !frame_buffer ==> r is None
        }),
{
}

/// Where the files of an NPU stand and what they hold: its usage below its own directory, in
/// percent; all others below its sensors, temperatures in thousandths of a degree and powers
/// in millionths of a watt.
pub proof fn files_of_an_npu()
    ensures
        file_of(NpuFile::Usage) == "device/npu_busy_percent"@ && !is_sensor(NpuFile::Usage)
            && divisor_of(NpuFile::Usage) == 1,
        file_of(NpuFile::Temperature) == "temp1_input"@ && is_sensor(NpuFile::Temperature)
            && divisor_of(NpuFile::Temperature) == 1000,
        file_of(NpuFile::PowerUsage) == "power1_average"@ && is_sensor(NpuFile::PowerUsage)
            && divisor_of(NpuFile::PowerUsage) == 1_000_000,
        file_of(NpuFile::CoreFrequency) == "freq1_input"@ && is_sensor(NpuFile::CoreFrequency)
            && divisor_of(NpuFile::CoreFrequency) == 1,
        file_of(NpuFile::MemoryFrequency) == "freq2_input"@ && is_sensor(NpuFile::MemoryFrequency)
            && divisor_of(NpuFile::MemoryFrequency) == 1,
        file_of(NpuFile::PowerCap) == "power1_cap"@ && is_sensor(NpuFile::PowerCap) && divisor_of(
            NpuFile::PowerCap,
        ) == 1_000_000,
        file_of(NpuFile::PowerCapMax) == "power1_cap_max"@ && is_sensor(NpuFile::PowerCapMax)
            && divisor_of(NpuFile::PowerCapMax) == 1_000_000,
        memory_file_of(NpuMemoryFile::Used) == "device/npu_memory_utilization"@,
        memory_file_of(NpuMemoryFile::Total) == "device/npu_memory_total"@,
{
}

/// A file of an NPU tells the number that it holds, whatever white space stands round it. It
/// tells nothing where it is a sensor of an NPU without any, cannot be read or holds none.
pub proof fn file_tells_its_number(has_hwmon: bool, file: NpuFile, content: Option<Seq<char>>)
    ensures
        ({
            let r = npu_reading(has_hwmon, file, content);
            let missing = file != NpuFile::Usage && !has_hwmon;
            &&& missing ==> r == Err::<Reading, ReadingError>(ReadingError::NoHwmon)
            &&& !missing && content is None ==> r == Err::<Reading, ReadingError>(
                ReadingError::Unreadable,
            )
            &&& !missing && content is Some ==> match number::parse_signed(
                text::trim(content->0),
                i64::MIN as int,
                i64::MAX as int,
            ) {
                Some(n) => r is Ok && r->Ok_0.value == n && r->Ok_0.divisor == divisor_of(file),
                None => r == Err::<Reading, ReadingError>(ReadingError::NotANumber),
            }
        }),
{
    if let Some(s) = content {
        number::number_is_within_bounds(
            text::trim(s),
            10,
            i64::MIN as int,
            i64::MAX as int,
            i64::MAX as int,
        );
    }
}

/// A file that holds a number of bytes tells that number.
pub proof fn memory_file_tells_bytes(content: Option<Seq<char>>)
    ensures
        content is None ==> memory_reading(content) == Err::<u64, ReadingError>(
            ReadingError::Unreadable,
        ),
        content matches Some(s) ==> match number::parse_unsigned(
            text::trim(s),
            10,
            u64::MAX as int,
        ) {
            Some(n) => memory_reading(content) is Ok && memory_reading(content)->Ok_0 == n,
            None => memory_reading(content) == Err::<u64, ReadingError>(ReadingError::NotANumber),
        },
{
    if let Some(s) = content {
        number::number_is_within_bounds(text::trim(s), 10, 0, u64::MAX as int, u64::MAX as int);
    }
}

/// An NPU is of the maker under which it is held, and what is known of it is what is held.
pub proof fn npu_is_what_it_holds(d: NpuDevice)
    ensures
        npu_category(Npu::Amd(d)) == NpuCategory::Amd && npu_device(Npu::Amd(d)) == d,
        npu_category(Npu::Intel(d)) == NpuCategory::Intel && npu_device(Npu::Intel(d)) == d,
        npu_category(Npu::Other(d)) == NpuCategory::Other && npu_device(Npu::Other(d)) == d,
{
}

} // verus!
