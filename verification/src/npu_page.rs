//! The page that shows an NPU.

use vstd::prelude::*;

use crate::link;
use crate::link::Link;
use crate::npu;
use crate::npu::{Npu, NpuDevice};
use crate::pci_slot;
use crate::pci_slot::PciSlot;
use crate::process::{AppIcon, IconView};
use crate::text;

verus! {

pub const TAB_ID_PREFIX: &'static str = "npu";

/// The identifier of the page of an NPU.
pub fn tab_id(slot: PciSlot) -> (r: String)
    ensures
        r@ == TAB_ID_PREFIX@ + seq!['-'] + pci_slot::slot_text(slot),
{
    let mut chars: Vec<char> = text::to_chars(TAB_ID_PREFIX);
    chars.push('-');
    text::append_chars(&mut chars, &text::to_chars(slot.to_string().as_str()));
    proof {
        assert(chars@ =~= TAB_ID_PREFIX@ + seq!['-'] + pci_slot::slot_text(slot));
    }
    text::to_text(&chars)
}

/// A value as it is shown, or what is shown in place of one that is not known.
pub fn shown_or(value: &Option<String>, unknown: &str) -> (r: String)
    ensures
        r@ == npu::text_or(text::opt_text(*value), unknown@),
{
    match value {
        Some(s) => s.clone(),
        None => unknown.to_string(),
    }
}

/// Two values as they are shown together.
pub open spec fn both_shown(a: Seq<char>, b: Seq<char>) -> Seq<char> {
    a + " / "@ + b
}

fn show_both(a: &str, b: &str) -> (r: String)
    ensures
        r@ == both_shown(a@, b@),
{
    let mut chars: Vec<char> = text::to_chars(a);
    text::append_chars(&mut chars, &text::to_chars(" / "));
    text::append_chars(&mut chars, &text::to_chars(b));
    text::to_text(&chars)
}

/// How the power is shown: with its limit, where that is known.
pub fn power_subtitle(usage: &Option<String>, cap: &Option<String>, unknown: &str) -> (r: String)
    ensures
        r@ == power_text(text::opt_text(*usage), text::opt_text(*cap), unknown@),
{
    let usage: String = shown_or(usage, unknown);
    match cap {
        Some(cap) => show_both(usage.as_str(), cap.as_str()),
        None => usage,
    }
}

/// How the operations per second are shown: only where both what is done and what can be
/// done is known.
pub fn tops_subtitle(current: &Option<String>, max: &Option<String>, unknown: &str) -> (r: String)
    ensures
        r@ == tops_text(text::opt_text(*current), text::opt_text(*max), unknown@),
{
    match (current, max) {
        (Some(current), Some(max)) => show_both(current.as_str(), max.as_str()),
        _ => unknown.to_string(),
    }
}

/// A colour of a graph.
#[derive(Debug, Clone, Copy, PartialEq, Eq, Structural)]
pub struct GraphColor {
    pub red: u8,
    pub green: u8,
    pub blue: u8,
}

/// The colour of the graph that stands for the NPU.
pub open spec fn main_graph_color() -> GraphColor {
    GraphColor { red: 0xb5, green: 0x27, blue: 0xe3 }
}

/// The page: how it shows in the sidebar, and its texts.
pub struct ResNPU {
    /// Whether the sidebar shows a meter for the page.
    pub uses_meter: bool,
    pub main_graph_color: GraphColor,
    pub icon: AppIcon,
    pub tab_name: String,
    /// Whether the scale of the graph in the sidebar is fixed.
    pub graph_locked_max_y: bool,
    pub tab_id: String,
    pub tab_detail_string: String,
    pub secondary_ord: u32,
    pub manufacturer: String,
    pub pci_slot: String,
    pub driver_used: String,
    pub power_usage: String,
    pub npu_clockspeed: String,
    pub tops: String,
    pub memory_clockspeed: String,
    pub max_power_cap: String,
    pub link: String,
}

/// What a `ResNPU` holds.
#[verifier::ext_equal]
pub struct PageView {
    pub uses_meter: bool,
    pub main_graph_color: GraphColor,
    pub icon: IconView,
    pub tab_name: Seq<char>,
    pub graph_locked_max_y: bool,
    pub tab_id: Seq<char>,
    pub tab_detail_string: Seq<char>,
    pub secondary_ord: u32,
    pub manufacturer: Seq<char>,
    pub pci_slot: Seq<char>,
    pub driver_used: Seq<char>,
    pub power_usage: Seq<char>,
    pub npu_clockspeed: Seq<char>,
    pub tops: Seq<char>,
    pub memory_clockspeed: Seq<char>,
    pub max_power_cap: Seq<char>,
    pub link: Seq<char>,
}

impl View for ResNPU {
    type V = PageView;

    open spec fn view(&self) -> PageView {
        PageView {
            uses_meter: self.uses_meter,
            main_graph_color: self.main_graph_color,
            icon: self.icon@,
            tab_name: self.tab_name@,
            graph_locked_max_y: self.graph_locked_max_y,
            tab_id: self.tab_id@,
            tab_detail_string: self.tab_detail_string@,
            secondary_ord: self.secondary_ord,
            manufacturer: self.manufacturer@,
            pci_slot: self.pci_slot@,
            driver_used: self.driver_used@,
            power_usage: self.power_usage@,
            npu_clockspeed: self.npu_clockspeed@,
            tops: self.tops@,
            memory_clockspeed: self.memory_clockspeed@,
            max_power_cap: self.max_power_cap@,
            link: self.link@,
        }
    }
}

/// What was measured of an NPU, each value as it is shown, where it is known.
pub struct ShownNpuData {
    pub power_usage: Option<String>,
    pub power_cap: Option<String>,
    pub power_cap_max: Option<String>,
    pub clock_speed: Option<String>,
    pub vram_speed: Option<String>,
    pub curr_tops: Option<String>,
    pub max_tops: Option<String>,
    pub link: Option<Link>,
}

/// How the power is shown: with its limit, where that is known.
pub open spec fn power_text(
    usage: Option<Seq<char>>,
    cap: Option<Seq<char>>,
    unknown: Seq<char>,
) -> Seq<char> {
    match cap {
        Some(cap) => both_shown(npu::text_or(usage, unknown), cap),
        None => npu::text_or(usage, unknown),
    }
}

/// How the operations per second are shown.
pub open spec fn tops_text(
    current: Option<Seq<char>>,
    max: Option<Seq<char>>,
    unknown: Seq<char>,
) -> Seq<char> {
    match (current, max) {
        (Some(current), Some(max)) => both_shown(current, max),
        _ => unknown,
    }
}

/// The page after it was set up for an NPU. Its detail is the name of the model, and
/// stays as it is where that is not known.
pub open spec fn set_up(
    page: PageView,
    device: NpuDevice,
    name: Option<Seq<char>>,
    unknown: Seq<char>,
) -> PageView {
    PageView {
        tab_id: TAB_ID_PREFIX@ + seq!['-'] + pci_slot::slot_text(device.pci_slot),
        manufacturer: match device.device {
            Some(d) => d.vendor.name@,
            None => unknown,
        },
        pci_slot: pci_slot::slot_text(device.pci_slot),
        driver_used: device.driver@,
        tab_detail_string: match name {
            Some(name) => name,
            None => page.tab_detail_string,
        },
        ..page
    }
}

/// The page after it was refreshed.
pub open spec fn page_refreshed(page: PageView, data: ShownNpuData, unknown: Seq<char>) -> PageView {
    PageView {
        power_usage: power_text(
            text::opt_text(data.power_usage),
            text::opt_text(data.power_cap),
            unknown,
        ),
        npu_clockspeed: npu::text_or(text::opt_text(data.clock_speed), unknown),
        tops: tops_text(text::opt_text(data.curr_tops), text::opt_text(data.max_tops), unknown),
        memory_clockspeed: npu::text_or(text::opt_text(data.vram_speed), unknown),
        max_power_cap: npu::text_or(text::opt_text(data.power_cap_max), unknown),
        link: match data.link {
            Some(l) => link::link_text(l, unknown),
            None => unknown,
        },
        ..page
    }
}

impl ResNPU {
    /// A page of the given name that shows no NPU yet. It has the icon and the colour of
    /// NPUs, a meter in the sidebar and a graph of a fixed scale.
    pub fn new(tab_name: String) -> (r: Self)
        ensures
            r@ == (PageView {
                uses_meter: true,
                main_graph_color: main_graph_color(),
                icon: IconView::Themed("npu-symbolic"@),
                tab_name: tab_name@,
                graph_locked_max_y: true,
                tab_id: Seq::<char>::empty(),
                tab_detail_string: Seq::<char>::empty(),
                secondary_ord: 0,
                manufacturer: Seq::<char>::empty(),
                pci_slot: Seq::<char>::empty(),
                driver_used: Seq::<char>::empty(),
                power_usage: Seq::<char>::empty(),
                npu_clockspeed: Seq::<char>::empty(),
                tops: Seq::<char>::empty(),
                memory_clockspeed: Seq::<char>::empty(),
                max_power_cap: Seq::<char>::empty(),
                link: Seq::<char>::empty(),
            }),
    {
        ResNPU {
            uses_meter: true,
            main_graph_color: GraphColor { red: 0xb5, green: 0x27, blue: 0xe3 },
            icon: AppIcon::Themed("npu-symbolic".to_string()),
            tab_name,
            graph_locked_max_y: true,
            tab_id: String::new(),
            tab_detail_string: String::new(),
            secondary_ord: 0,
            manufacturer: String::new(),
            pci_slot: String::new(),
            driver_used: String::new(),
            power_usage: String::new(),
            npu_clockspeed: String::new(),
            tops: String::new(),
            memory_clockspeed: String::new(),
            max_power_cap: String::new(),
            link: String::new(),
        }
    }

    /// Sets the page up for an NPU with the given place among all of them.
    pub fn init(&mut self, npu: &Npu, name: &Option<String>, secondary_ord: u32, unknown: &str)
        ensures
            final(self)@ == set_up(
                (PageView { secondary_ord, ..old(self)@ }),
                npu::npu_device(*npu),
                text::opt_text(*name),
                unknown@,
            ),
    {
        self.secondary_ord = secondary_ord;
        self.setup_widgets(npu, name, unknown);
    }

    /// Sets the page up for an NPU. `name` is the name of the model, where it is known.
    pub fn setup_widgets(&mut self, npu: &Npu, name: &Option<String>, unknown: &str)
        ensures
            final(self)@ == set_up(
                old(self)@,
                npu::npu_device(*npu),
                text::opt_text(*name),
                unknown@,
            ),
    {
        let ghost before = self@;
        self.tab_id = tab_id(npu.pci_slot());
        self.manufacturer = match npu.get_vendor() {
            Ok(vendor) => vendor.name.clone(),
            Err(_) => unknown.to_string(),
        };
        self.pci_slot = npu.pci_slot().to_string();
        self.driver_used = npu.info().driver.clone();
        if let Some(name) = name {
            self.tab_detail_string = name.clone();
        }
        proof {
            assert(self@ =~= set_up(
                before,
                npu::npu_device(*npu),
                text::opt_text(*name),
                unknown@,
            ));
        }
    }

    /// Shows what was measured of the NPU.
    pub fn refresh_page(&mut self, data: &ShownNpuData, unknown: &str)
        ensures
            final(self)@ == page_refreshed(old(self)@, *data, unknown@),
    {
        let ghost before = self@;
        self.power_usage = power_subtitle(&data.power_usage, &data.power_cap, unknown);
        self.npu_clockspeed = shown_or(&data.clock_speed, unknown);
        self.tops = tops_subtitle(&data.curr_tops, &data.max_tops, unknown);
        self.memory_clockspeed = shown_or(&data.vram_speed, unknown);
        self.max_power_cap = shown_or(&data.power_cap_max, unknown);
        self.link = match &data.link {
            Some(l) => l.to_string(unknown),
            None => unknown.to_string(),
        };
        proof {
            assert(self@ =~= page_refreshed(before, *data, unknown@));
        }
    }
}

/// A refresh leaves alone what the page was set up with.
pub proof fn refresh_keeps_setup(page: PageView, data: ShownNpuData, unknown: Seq<char>)
    ensures
        page_refreshed(page, data, unknown).tab_id == page.tab_id,
        page_refreshed(page, data, unknown).tab_detail_string == page.tab_detail_string,
        page_refreshed(page, data, unknown).secondary_ord == page.secondary_ord,
        page_refreshed(page, data, unknown).manufacturer == page.manufacturer,
        page_refreshed(page, data, unknown).pci_slot == page.pci_slot,
        page_refreshed(page, data, unknown).driver_used == page.driver_used,
{
}

/// The page of an NPU shows who made it, where it is, what drives it and its name.
pub proof fn page_shows_its_npu(
    page: PageView,
    device: NpuDevice,
    name: Option<Seq<char>>,
    unknown: Seq<char>,
)
    ensures
        ({
            let p = set_up(page, device, name, unknown);
            &&& p.tab_id == "npu"@ + seq!['-'] + pci_slot::slot_text(device.pci_slot)
            &&& p.pci_slot == pci_slot::slot_text(device.pci_slot)
            &&& p.driver_used == device.driver@
            &&& device.device matches Some(d) ==> p.manufacturer == d.vendor.name@
            &&& device.device is None ==> p.manufacturer == unknown
            &&& name is Some ==> p.tab_detail_string == name->0
            &&& name is None ==> p.tab_detail_string == page.tab_detail_string
            &&& p.secondary_ord == page.secondary_ord
            &&& p.tab_name == page.tab_name
            &&& p.icon == page.icon
            &&& p.power_usage == page.power_usage
            &&& p.link == page.link
        }),
{
}

/// The page of an NPU shows each value that was measured, and says so where one is not known.
/// The power is shown with its limit where that is known, the operations only with what the
/// NPU can do.
pub proof fn page_shows_measurements(page: PageView, data: ShownNpuData, unknown: Seq<char>)
    ensures
        ({
            let p = page_refreshed(page, data, unknown);
            let power = match data.power_usage {
                Some(s) => s@,
                None => unknown,
            };
            &&& data.power_cap matches Some(cap) ==> p.power_usage == power + " / "@ + cap@
            &&& data.power_cap is None ==> p.power_usage == power
            &&& data.clock_speed matches Some(s) ==> p.npu_clockspeed == s@
            &&& data.clock_speed is None ==> p.npu_clockspeed == unknown
            &&& data.vram_speed matches Some(s) ==> p.memory_clockspeed == s@
            &&& data.vram_speed is None ==> p.memory_clockspeed == unknown
            &&& data.power_cap_max matches Some(s) ==> p.max_power_cap == s@
            &&& data.power_cap_max is None ==> p.max_power_cap == unknown
            &&& data.curr_tops is Some && data.max_tops is Some ==> p.tops
                == data.curr_tops->0@ + " / "@ + data.max_tops->0@
            &&& data.curr_tops is None || data.max_tops is None ==> p.tops == unknown
            &&& data.link matches Some(l) ==> p.link == link::link_text(l, unknown)
            &&& data.link is None ==> p.link == unknown
        }),
{
}

/// What a page holds is what it shows.
pub proof fn page_shows_its_texts(page: ResNPU)
    ensures
        page@.tab_id == page.tab_id@,
        page@.tab_name == page.tab_name@,
        page@.tab_detail_string == page.tab_detail_string@,
        page@.secondary_ord == page.secondary_ord,
        page@.manufacturer == page.manufacturer@,
        page@.pci_slot == page.pci_slot@,
        page@.driver_used == page.driver_used@,
        page@.power_usage == page.power_usage@,
        page@.npu_clockspeed == page.npu_clockspeed@,
        page@.tops == page.tops@,
        page@.memory_clockspeed == page.memory_clockspeed@,
        page@.max_power_cap == page.max_power_cap@,
        page@.link == page.link@,
{
}

/// Two NPUs never have the same page.
pub proof fn pages_stay_apart(a: PciSlot, b: PciSlot)
    requires
        "npu"@ + seq!['-'] + pci_slot::slot_text(a) == "npu"@ + seq!['-'] + pci_slot::slot_text(b),
    ensures
        a == b,
{
    let start = "npu"@ + seq!['-'];
    let n = start.len() as int;
    assert((start + pci_slot::slot_text(a)).skip(n) =~= pci_slot::slot_text(a));
    assert((start + pci_slot::slot_text(b)).skip(n) =~= pci_slot::slot_text(b));
    pci_slot::addresses_differ_in_text(a, b);
}

} // verus!
