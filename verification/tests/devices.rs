use resources::link::{Link, LinkData, LinkValue};
use resources::npu::{
    parse_bytes_reading, parse_reading, read_memory, Device, Npu, NpuData, NpuError, NpuFile,
    NpuMemoryFile, NpuReadings, Reading, ReadingError, Uevent, Vendor,
};
use resources::npu_page::{
    power_subtitle, shown_or, tab_id, tops_subtitle, GraphColor, ResNPU, ShownNpuData,
};
use resources::pci_slot::PciSlot;
use resources::process::AppIcon;

fn some(s: &str) -> Option<String> {
    Some(s.to_string())
}

fn uevent(id: Option<&str>, slot: Option<&str>, driver: Option<&str>) -> Uevent {
    Uevent {
        pci_id: id.map(String::from),
        pci_slot_name: slot.map(String::from),
        driver: driver.map(String::from),
    }
}

fn device() -> Option<Device> {
    Some(Device { name: "Phoenix".to_string(), vendor: Vendor { name: "AMD".to_string() } })
}

fn npu(u: &Uevent, device: Option<Device>, hwmon: Option<&str>) -> Result<Npu, NpuError> {
    Npu::from_sysfs_path("/sys/class/accel/accel0".to_string(), u, device, hwmon.map(String::from), "N/A")
}

fn speed(id: u64, text: &str) -> LinkValue {
    LinkValue { id, text: text.to_string() }
}

#[test]
fn links_are_shown_with_their_maximum() {
    let link = |current: LinkValue, max: Option<LinkValue>| Link::Pcie(LinkData { current, max });
    assert_eq!(link(speed(3, "3.0 ×4"), Some(speed(4, "4.0 ×4"))).to_string("N/A"), "3.0 ×4 / 4.0 ×4");
    assert_eq!(link(speed(4, "4.0 ×4"), Some(speed(4, "4.0 ×4"))).to_string("N/A"), "4.0 ×4");
    assert_eq!(link(speed(4, "4.0 ×4"), None).to_string("N/A"), "4.0 ×4");
    assert_eq!(Link::default().to_string("N/A"), "N/A");
    let data = || LinkData { current: speed(1, "a"), max: None };
    assert_eq!(Link::Sata(data()).to_string(""), "a");
    assert_eq!(Link::Usb(data()).to_string(""), "a");
    assert_eq!(Link::Wifi(data()).to_string(""), "a");
}

#[test]
fn different_links_that_are_shown_alike_are_both_shown() {
    let data = LinkData { current: speed(1, "4.0"), max: Some(speed(2, "4.0")) };
    assert_eq!(data.to_string(), "4.0 / 4.0");
    assert_eq!(Link::Wifi(data).to_string("N/A"), "4.0 / 4.0");
}

#[test]
fn vendors_and_products_are_hexadecimal() {
    assert_eq!(uevent(Some("1022:1502"), None, None).pci_ids(), (0x1022, 0x1502));
    assert_eq!(uevent(Some("xyz:1"), None, None).pci_ids(), (0, 1));
    assert_eq!(uevent(Some("1022"), None, None).pci_ids(), (0, 0));
    assert_eq!(uevent(None, None, None).pci_ids(), (0, 0));
}

#[test]
fn uevents_are_lines_of_names_and_values() {
    let u = Uevent::parse("DRIVER=amdxdna\nPCI_ID=1022:1502\nno value\nPCI_SLOT_NAME=0000:c6:00.1\nDRIVER=x=y\n");
    assert_eq!(u.driver, some("x=y"));
    assert_eq!(u.pci_id, some("1022:1502"));
    assert_eq!(u.pci_slot_name, some("0000:c6:00.1"));
    assert_eq!(Uevent::parse("").driver, None);
}

#[test]
fn makers_are_told_apart() {
    let slot = Some("0000:c6:00.1");
    assert!(matches!(npu(&uevent(Some("8086:7d1d"), slot, None), None, None), Ok(Npu::Intel(_))));
    assert!(matches!(npu(&uevent(None, slot, Some("intel_vpu")), None, None), Ok(Npu::Intel(_))));
    assert!(matches!(npu(&uevent(Some("1022:1502"), slot, None), None, None), Ok(Npu::Amd(_))));
    assert!(matches!(npu(&uevent(Some("1002:1502"), slot, None), None, None), Ok(Npu::Amd(_))));
    assert!(matches!(npu(&uevent(None, slot, Some("amdxdna")), None, None), Ok(Npu::Amd(_))));
    assert!(matches!(npu(&uevent(None, slot, None), None, None), Ok(Npu::Other(_))));
}

#[test]
fn what_is_no_npu_is_refused() {
    assert_eq!(npu(&uevent(None, None, None), None, None).err(), Some(NpuError::InvalidSlot));
    assert_eq!(npu(&uevent(None, Some("x"), None), None, None).err(), Some(NpuError::InvalidSlot));
    assert_eq!(
        npu(&uevent(None, Some("0000:c6:00.1"), Some("simple-framebuffer")), None, None).err(),
        Some(NpuError::SimpleFramebuffer)
    );
}

#[test]
fn what_is_known_of_an_npu() {
    let u = uevent(Some("1022:1502"), Some("0000:c6:00.1"), Some("amdxdna"));
    let n = npu(&u, device(), Some("/sys/hwmon0")).ok().unwrap();
    assert_eq!(n.pci_slot(), PciSlot { domain: 0, bus: 0xc6, number: 0, function: 1 });
    assert_eq!(n.info().driver, "amdxdna");
    assert_eq!(n.info().sysfs_path, "/sys/class/accel/accel0");
    assert_eq!(n.get_vendor().ok().unwrap().name, "AMD");
    assert_eq!(n.drm_name().ok().unwrap(), "Phoenix");
    assert_eq!(n.hwmon_path().ok().unwrap(), "/sys/hwmon0");
    assert!(matches!(n.link(Some(LinkData { current: speed(1, "x"), max: None })), Ok(Link::Pcie(_))));
    assert_eq!(n.link(None).err(), Some(NpuError::NoLink));
    let bare = npu(&u, None, None).ok().unwrap();
    assert_eq!(bare.get_vendor().err(), Some(NpuError::NoDevice));
    assert_eq!(bare.drm_name().err(), Some(NpuError::NoDevice));
    assert_eq!(bare.hwmon_path().err(), Some(NpuError::NoHwmon));
}

#[test]
fn sensors_are_read() {
    let u = uevent(None, Some("0000:c6:00.1"), None);
    let n = npu(&u, None, Some("/sys/hwmon0")).ok().unwrap();
    assert_eq!(n.read(NpuFile::Temperature, &some("45500\n")), Ok(Reading { value: 45500, divisor: 1000 }));
    assert_eq!(n.read(NpuFile::PowerUsage, &some("-3")), Ok(Reading { value: -3, divisor: 1_000_000 }));
    assert_eq!(n.read(NpuFile::CoreFrequency, &some("x")), Err(ReadingError::NotANumber));
    assert_eq!(n.read(NpuFile::PowerCap, &None), Err(ReadingError::Unreadable));
    let bare = npu(&u, None, None).ok().unwrap();
    assert_eq!(bare.read(NpuFile::Temperature, &some("1")), Err(ReadingError::NoHwmon));
    assert_eq!(bare.read(NpuFile::Usage, &some("7")), Ok(Reading { value: 7, divisor: 1 }));
    assert_eq!(parse_reading(" 12 \n"), Some(12));
    assert_eq!(parse_reading("1.5"), None);
    assert_eq!(parse_bytes_reading("1024\n"), Some(1024));
    assert_eq!(parse_bytes_reading("-1"), None);
    assert_eq!(read_memory(&some("18446744073709551615\n")), Ok(u64::MAX));
    assert_eq!(read_memory(&some("-1")), Err(ReadingError::NotANumber));
    assert_eq!(read_memory(&None), Err(ReadingError::Unreadable));
}

#[test]
fn files_of_an_npu() {
    let all = [
        (NpuFile::Usage, "device/npu_busy_percent", 1, false),
        (NpuFile::Temperature, "temp1_input", 1000, true),
        (NpuFile::PowerUsage, "power1_average", 1_000_000, true),
        (NpuFile::CoreFrequency, "freq1_input", 1, true),
        (NpuFile::MemoryFrequency, "freq2_input", 1, true),
        (NpuFile::PowerCap, "power1_cap", 1_000_000, true),
        (NpuFile::PowerCapMax, "power1_cap_max", 1_000_000, true),
    ];
    for (file, path, divisor, below_hwmon) in all {
        assert_eq!((file.path(), file.divisor(), file.below_hwmon()), (path, divisor, below_hwmon));
    }
    assert_eq!(NpuMemoryFile::Used.path(), "device/npu_memory_utilization");
    assert_eq!(NpuMemoryFile::Total.path(), "device/npu_memory_total");
}

fn readings() -> NpuReadings {
    NpuReadings {
        usage: None,
        total_memory: Some(1),
        used_memory: None,
        clock_speed: None,
        vram_speed: None,
        curr_tops: None,
        max_tops: Some(2),
        temperature: Some(Reading { value: 45500, divisor: 1000 }),
        power_usage: None,
        power_cap: None,
        power_cap_max: None,
        link: Some(LinkData { current: speed(1, "x"), max: None }),
    }
}

#[test]
fn unknown_usage_counts_as_none() {
    let n = npu(&uevent(None, Some("0000:c6:00.1"), None), None, None).ok().unwrap();
    let d = NpuData::new(&n, readings());
    assert_eq!(d.pci_slot, n.pci_slot());
    assert_eq!(d.usage_fraction.value, 0);
    assert_eq!((d.total_memory, d.used_memory, d.max_tops), (Some(1), None, Some(2)));
    assert_eq!(d.temperature, Some(Reading { value: 45500, divisor: 1000 }));
    assert!(matches!(d.link, Some(Link::Pcie(_))));
    let busy = NpuReadings { usage: Some(Reading { value: 40, divisor: 100 }), link: None, ..readings() };
    let d = NpuData::new(&n, busy);
    assert_eq!(d.usage_fraction, Reading { value: 40, divisor: 100 });
    assert!(d.link.is_none());
}

#[test]
fn pages_have_identifiers() {
    assert_eq!(tab_id(PciSlot { domain: 0, bus: 0xc6, number: 0, function: 1 }), "npu-0000:c6:00.1");
}

#[test]
fn values_are_shown_together() {
    assert_eq!(shown_or(&some("5 W"), "N/A"), "5 W");
    assert_eq!(shown_or(&None, "N/A"), "N/A");
    assert_eq!(power_subtitle(&some("5 W"), &some("9 W"), "N/A"), "5 W / 9 W");
    assert_eq!(power_subtitle(&None, &some("9 W"), "N/A"), "N/A / 9 W");
    assert_eq!(power_subtitle(&some("5 W"), &None, "N/A"), "5 W");
    assert_eq!(tops_subtitle(&some("1"), &some("2"), "N/A"), "1 / 2");
    assert_eq!(tops_subtitle(&some("1"), &None, "N/A"), "N/A");
    assert_eq!(tops_subtitle(&None, &some("2"), "N/A"), "N/A");
}

#[test]
fn a_new_page_stands_for_npus() {
    let page = ResNPU::new("Prozessor".to_string());
    assert_eq!(page.tab_name, "Prozessor");
    assert!(page.uses_meter && page.graph_locked_max_y);
    assert_eq!(page.main_graph_color, GraphColor { red: 0xb5, green: 0x27, blue: 0xe3 });
    assert!(matches!(&page.icon, AppIcon::Themed(name) if name == "npu-symbolic"));
    assert_eq!((page.tab_id.as_str(), page.tab_detail_string.as_str()), ("", ""));
    assert_eq!(page.secondary_ord, 0);
}

#[test]
fn a_refresh_keeps_what_was_set_up() {
    let u = uevent(Some("1022:1502"), Some("0000:c6:00.1"), Some("amdxdna"));
    let n = npu(&u, device(), None).ok().unwrap();
    let mut page = ResNPU::new("NPU".to_string());
    page.init(&n, &some("Phoenix NPU"), 3, "N/A");
    assert_eq!(page.secondary_ord, 3);
    assert_eq!(page.tab_id, "npu-0000:c6:00.1");
    assert_eq!(page.manufacturer, "AMD");
    assert_eq!(page.driver_used, "amdxdna");
    page.setup_widgets(&n, &None, "N/A");
    assert_eq!(page.tab_detail_string, "Phoenix NPU");
    page.refresh_page(
        &ShownNpuData {
            power_usage: some("5 W"),
            power_cap: None,
            power_cap_max: None,
            clock_speed: some("1 GHz"),
            vram_speed: None,
            curr_tops: None,
            max_tops: None,
            link: Some(Link::Unknown),
        },
        "N/A",
    );
    assert_eq!(page.power_usage, "5 W");
    assert_eq!(page.npu_clockspeed, "1 GHz");
    assert_eq!((page.tops.as_str(), page.memory_clockspeed.as_str(), page.max_power_cap.as_str(), page.link.as_str()), ("N/A", "N/A", "N/A", "N/A"));
    assert_eq!(page.pci_slot, "0000:c6:00.1");
    assert_eq!(page.tab_id, "npu-0000:c6:00.1");
}
