use resources::list::reversed;
use resources::process::AppIcon;
use resources::settings::{
    setting_key, Base, MemoryMetric, RefreshSpeed, SidebarMeterType, SortType, TemperatureUnit,
};
use resources::sidebar::{
    fill_usage_box, label_style, query_tooltip, ItemBox, ItemOrder, MeterType, ResStackSidebarItem,
    UsageLabels,
};
use resources::sorted_map::SortedMap;

fn some(s: &str) -> Option<String> {
    Some(s.to_string())
}

#[test]
fn setting_keys_have_hyphens() {
    assert_eq!(setting_key("show_virtual_drives"), "show-virtual-drives");
    assert_eq!(setting_key("base"), "base");
}

#[test]
fn bases_are_read_back() {
    for b in [Base::Decimal, Base::Binary] {
        assert_eq!(Base::from_str(&b.to_string()), Some(b));
    }
    assert_eq!(Base::from_str("decimal"), None);
    assert_eq!(Base::from_setting("x"), Base::Decimal);
    assert_eq!(Base::from_repr(1), Some(Base::Binary));
    assert_eq!(Base::from_repr(2), None);
    assert_eq!((Base::Decimal.base(), Base::Binary.base()), (1000, 1024));
    assert_eq!(Base::default(), Base::Decimal);
}

#[test]
fn temperature_units_are_read_back() {
    for u in [TemperatureUnit::Celsius, TemperatureUnit::Kelvin, TemperatureUnit::Fahrenheit] {
        assert_eq!(TemperatureUnit::from_str(&u.to_string()), Some(u));
    }
    assert_eq!(TemperatureUnit::from_setting("Kelvin"), TemperatureUnit::Kelvin);
    assert_eq!(TemperatureUnit::from_setting(""), TemperatureUnit::Celsius);
    assert_eq!(TemperatureUnit::from_repr(2), Some(TemperatureUnit::Fahrenheit));
    assert_eq!(TemperatureUnit::from_repr(3), None);
}

#[test]
fn refresh_speeds_are_read_back() {
    let all = [
        (RefreshSpeed::VerySlow, "VerySlow", 3000),
        (RefreshSpeed::Slow, "Slow", 2000),
        (RefreshSpeed::Normal, "Normal", 1000),
        (RefreshSpeed::Fast, "Fast", 500),
        (RefreshSpeed::VeryFast, "VeryFast", 250),
    ];
    for (i, (speed, name, millis)) in all.into_iter().enumerate() {
        assert_eq!(speed.to_string(), name);
        assert_eq!(RefreshSpeed::from_str(name), Some(speed));
        assert_eq!(RefreshSpeed::from_repr(i as u8), Some(speed));
        assert_eq!(speed.ui_refresh_interval(), millis);
    }
    assert_eq!(RefreshSpeed::from_repr(5), None);
    assert_eq!(RefreshSpeed::from_setting("?"), RefreshSpeed::Normal);
}

#[test]
fn meters_and_metrics_are_read_back() {
    for m in [SidebarMeterType::ProgressBar, SidebarMeterType::Graph] {
        assert_eq!(SidebarMeterType::from_str(&m.to_string()), Some(m));
    }
    assert_eq!(SidebarMeterType::from_setting("x"), SidebarMeterType::ProgressBar);
    assert_eq!(SidebarMeterType::from_repr(1), Some(SidebarMeterType::Graph));
    let metrics = [
        MemoryMetric::VmSize,
        MemoryMetric::Rss,
        MemoryMetric::RssNoSharedMemory,
        MemoryMetric::RssAnon,
        MemoryMetric::ApproximatePss,
        MemoryMetric::Pss,
    ];
    for (i, m) in metrics.into_iter().enumerate() {
        assert_eq!(MemoryMetric::from_str(&m.to_string()), Some(m));
        assert_eq!(MemoryMetric::from_repr(i as u8), Some(m));
    }
    assert_eq!(MemoryMetric::from_setting("x"), MemoryMetric::RssNoSharedMemory);
    assert_eq!(MemoryMetric::from_repr(6), None);
}

#[test]
fn sort_types_are_booleans() {
    assert_eq!(SortType::from_setting(true), SortType::Ascending);
    assert_eq!(SortType::from_setting(false), SortType::Descending);
    for s in [SortType::Ascending, SortType::Descending] {
        assert_eq!(SortType::from_setting(s.to_setting()), s);
    }
}

fn labels() -> UsageLabels {
    let mut l = UsageLabels::single_without_icon("10 %".to_string());
    l.add_with_icon("ram".to_string(), "Memory".to_string(), "1 GB".to_string());
    l
}

fn item(primary: u32, secondary: u32) -> ResStackSidebarItem {
    let icon = AppIcon::Themed("cpu".to_string());
    ResStackSidebarItem::new("CPU".to_string(), icon, some("Ryzen"), true, "cpu".to_string(), primary, secondary)
}

#[test]
fn boxes_show_their_labels() {
    let boxes = vec![
        ItemBox { icon: some("old"), label: some("x"), tooltip: some("kept") },
        ItemBox { icon: None, label: some("y"), tooltip: None },
        ItemBox { icon: None, label: some("z"), tooltip: None },
    ];
    let shown = fill_usage_box(&boxes, &labels());
    assert_eq!(shown.len(), 2);
    assert_eq!((&shown[0].icon, &shown[0].label, &shown[0].tooltip), (&None, &some("10 %"), &some("kept")));
    assert_eq!((&shown[1].icon, &shown[1].label, &shown[1].tooltip), (&some("ram"), &some("1 GB"), &some("Memory")));
    assert_eq!(fill_usage_box(&vec![], &labels()).len(), 2);
}

#[test]
fn filling_boxes_again_changes_nothing() {
    let once = fill_usage_box(&vec![], &labels());
    let twice = fill_usage_box(&once, &labels());
    for (a, b) in once.iter().zip(twice.iter()) {
        assert_eq!((&a.icon, &a.label, &a.tooltip), (&b.icon, &b.label, &b.tooltip));
    }
    assert_eq!(once.len(), twice.len());
}

#[test]
fn a_new_item_shows_name_and_detail() {
    let i = item(1, 2);
    assert_eq!((i.name.as_str(), i.name_label.as_str(), i.detail_label.as_str()), ("CPU", "CPU", "Ryzen"));
    assert!(i.detail_visible);
    assert_eq!((i.primary_ord(), i.secondary_ord()), (1, 2));
    assert_eq!(i.tab_id, "cpu");
    assert!(i.locked_max_y);
    assert!(matches!(i.icon(), AppIcon::Themed(name) if name == "cpu"));
    assert_eq!((i.name().as_str(), i.detail().as_str(), i.subtitle().as_str()), ("CPU", "", ""));
    let icon = AppIcon::Themed("cpu".to_string());
    let bare = ResStackSidebarItem::new("CPU".to_string(), icon, None, false, "cpu".to_string(), 0, 0);
    assert!(!bare.detail_visible && !bare.locked_max_y);
}

#[test]
fn properties_of_an_item() {
    let mut i = item(1, 2);
    i.set_name("GPU");
    assert_eq!((i.name.as_str(), i.name_label.as_str()), ("GPU", "GPU"));
    i.set_detail("Radeon");
    assert_eq!(i.detail_label, "Radeon");
    assert_eq!(i.detail(), "");
    i.set_icon(&AppIcon::File("/x.png".to_string()));
    assert!(matches!(i.icon(), AppIcon::File(path) if path == "/x.png"));
    i.set_subtitle("x");
    assert_eq!(i.subtitle, "");
    i.set_tab_id("gpu");
    assert_eq!(i.tab_id, "gpu");
    i.set_detail_label_visible(false);
    assert!(!i.detail_visible);
}

#[test]
fn labels_go_to_the_page_that_shows() {
    let mut i = item(1, 2);
    assert_eq!(i.visible_usage_box(), MeterType::Graph);
    i.set_usage_string(labels());
    assert_eq!((i.no_meter_boxes.len(), i.graph_boxes.len(), i.progress_boxes.len()), (0, 2, 0));
    i.set_meter_type(MeterType::ProgressBar);
    assert_eq!(i.progress_boxes.len(), 2);
    i.set_usage_string(UsageLabels::default());
    assert_eq!((i.graph_boxes.len(), i.progress_boxes.len()), (2, 0));
    i.set_meter_type(MeterType::NoMeter);
    i.set_usage_string(labels());
    assert_eq!(i.no_meter_boxes.len(), 2);
    i.refresh_visible_usage_box();
    assert_eq!(i.no_meter_boxes.len(), 2);
    assert!(labels().same_as(&labels()));
    assert!(!labels().same_as(&UsageLabels::default()));
}

#[test]
fn items_are_ordered() {
    assert_eq!(item(1, 2).ord(&item(1, 2)), ItemOrder::Equal);
    assert_eq!(item(1, 9).ord(&item(2, 0)), ItemOrder::Smaller);
    assert_eq!(item(2, 0).ord(&item(1, 9)), ItemOrder::Larger);
    assert_eq!(item(1, 1).ord(&item(1, 2)), ItemOrder::Smaller);
    assert_eq!(item(1, 2).ord(&item(1, 1)), ItemOrder::Larger);
}

#[test]
fn styles_and_tooltips() {
    assert_eq!(label_style(true), ("dropshadow", "dropshadow-light"));
    assert_eq!(label_style(false), ("dropshadow-light", "dropshadow"));
    assert_eq!(query_tooltip(&vec![None, some("a"), some("b")]), some("a"));
    assert_eq!(query_tooltip(&vec![None, None]), None);
}

#[test]
fn maps_keep_their_keys_in_order() {
    let mut m: SortedMap<u32, char> = SortedMap::new();
    m.insert(3, 'c');
    m.insert(1, 'a');
    m.insert(2, 'b');
    m.insert(3, 'd');
    assert_eq!(m.entries(), &vec![(1, 'a'), (2, 'b'), (3, 'd')]);
    assert_eq!(m.remove(&2), Some('b'));
    assert_eq!(m.remove(&2), None);
    assert!(m.contains_key(&1) && !m.contains_key(&2));
    let mut other: SortedMap<u32, char> = SortedMap::new();
    other.insert(1, 'x');
    other.insert(4, 'e');
    m.extend(&other);
    assert_eq!(m.entries(), &vec![(1, 'x'), (3, 'd'), (4, 'e')]);
    assert_eq!(reversed(vec![1, 2, 3]), vec![3, 2, 1]);
}
