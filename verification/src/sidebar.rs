//! The items of the sidebar.

use vstd::prelude::*;

use crate::process::{AppIcon, IconView};
use crate::text;

verus! {

/// How an item shows its usage.
#[derive(Debug, Clone, Copy, PartialEq, Eq, Structural)]
pub enum MeterType {
    NoMeter,
    Graph,
    ProgressBar,
}

// Usage labels ---------------------------------------------------------------------------

/// An icon with the text that explains it.
pub struct LabelIcon {
    pub icon_name: String,
    pub tooltip: String,
}

/// A label, with an icon or without one.
pub struct UsageLabel {
    pub icon: Option<LabelIcon>,
    pub text: String,
}

/// What a `UsageLabel` holds: the name of its icon and what explains it, and its text.
#[verifier::ext_equal]
pub struct LabelView {
    pub icon: Option<(Seq<char>, Seq<char>)>,
    pub text: Seq<char>,
}

impl View for UsageLabel {
    type V = LabelView;

    open spec fn view(&self) -> LabelView {
        LabelView {
            icon: match self.icon {
                Some(icon) => Some((icon.icon_name@, icon.tooltip@)),
                None => None,
            },
            text: self.text@,
        }
    }
}

/// The labels that show the usage of a device.
pub struct UsageLabels {
    pub labels: Vec<UsageLabel>,
}

impl View for UsageLabels {
    type V = Seq<LabelView>;

    open spec fn view(&self) -> Seq<LabelView> {
        Seq::new(self.labels@.len(), |i: int| self.labels@[i]@)
    }
}

impl UsageLabels {
    /// A single label without an icon.
    pub fn single_without_icon(text: String) -> (r: Self)
        ensures
            r@ == seq![LabelView { icon: None, text: text@ }],
    {
        let ghost t = text@;
        let mut labels: Vec<UsageLabel> = Vec::new();
        labels.push(UsageLabel { icon: None, text });
        let r = UsageLabels { labels };
        proof {
            assert(r@ =~= seq![LabelView { icon: None, text: t }]);
        }
        r
    }

    /// Adds a label with an icon.
    pub fn add_with_icon(&mut self, icon_name: String, tooltip: String, text: String)
        ensures
            final(self)@ == old(self)@.push(
                (LabelView { icon: Some((icon_name@, tooltip@)), text: text@ }),
            ),
    {
        let ghost before = self@;
        let ghost label = LabelView { icon: Some((icon_name@, tooltip@)), text: text@ };
        self.labels.push(UsageLabel { icon: Some(LabelIcon { icon_name, tooltip }), text });
        proof {
            assert(self@ =~= before.push(label));
        }
    }

    /// Whether the labels are the same as others.
    pub fn same_as(&self, other: &Self) -> (r: bool)
        ensures
            r == (self@ == other@),
    {
        if self.labels.len() != other.labels.len() {
            proof {
                assert(self@.len() != other@.len());
            }
            return false;
        }
        let mut i: usize = 0;
        while i < self.labels.len()
            invariant
                i <= self.labels.len(),
                self.labels.len() == other.labels.len(),
                forall|j: int| 0 <= j < i ==> self@[j] == other@[j],
            decreases self.labels.len() - i,
        {
            if !same_label(&self.labels[i], &other.labels[i]) {
                proof {
                    assert(self@[i as int] != other@[i as int]);
                }
                return false;
            }
            proof {
                assert(self@[i as int] == other@[i as int]);
            }
            i += 1;
        }
        proof {
            assert(self@ =~= other@);
        }
        true
    }
}

impl Default for UsageLabels {
    fn default() -> (r: Self)
        ensures
            r@ == Seq::<LabelView>::empty(),
    {
        let r = UsageLabels { labels: Vec::new() };
        proof {
            assert(r@ =~= Seq::<LabelView>::empty());
        }
        r
    }
}

fn same_label(a: &UsageLabel, b: &UsageLabel) -> (r: bool)
    ensures
        r == (a@ == b@),
{
    let icons: bool = match (&a.icon, &b.icon) {
        (Some(x), Some(y)) => text::same_text(x.icon_name.as_str(), y.icon_name.as_str())
            && text::same_text(x.tooltip.as_str(), y.tooltip.as_str()),
        (None, None) => true,
        _ => false,
    };
    proof {
        assert(icons == (a@.icon == b@.icon));
    }
    icons && text::same_text(a.text.as_str(), b.text.as_str())
}

// The boxes that show labels ---------------------------------------------------------------

/// A box that shows a label: an icon, if it has one, its label, if it has one, and what
/// explains it, if anything does.
pub struct ItemBox {
    pub icon: Option<String>,
    pub label: Option<String>,
    pub tooltip: Option<String>,
}

/// What an `ItemBox` holds.
#[verifier::ext_equal]
pub struct ItemBoxView {
    pub icon: Option<Seq<char>>,
    pub label: Option<Seq<char>>,
    pub tooltip: Option<Seq<char>>,
}

impl View for ItemBox {
    type V = ItemBoxView;

    open spec fn view(&self) -> ItemBoxView {
        ItemBoxView {
            icon: text::opt_text(self.icon),
            label: text::opt_text(self.label),
            tooltip: text::opt_text(self.tooltip),
        }
    }
}

/// The views of a list.
pub open spec fn box_views(list: Seq<ItemBox>) -> Seq<ItemBoxView> {
    Seq::new(list.len(), |i: int| list[i]@)
}

/// A box that is empty.
pub open spec fn empty_box() -> ItemBoxView {
    ItemBoxView { icon: None, label: None, tooltip: None }
}

/// A box after it was told to show a label. What explained it stays where the label has
/// no icon.
pub open spec fn showing(b: ItemBoxView, label: LabelView) -> ItemBoxView {
    match label.icon {
        Some((name, tooltip)) => ItemBoxView {
            icon: Some(name),
            label: Some(label.text),
            tooltip: Some(tooltip),
        },
        None => ItemBoxView { icon: None, label: Some(label.text), tooltip: b.tooltip },
    }
}

/// The boxes after they were told to show labels: those that are there are used again,
/// missing ones are added, and those that are left over are dropped.
pub open spec fn filled(boxes: Seq<ItemBoxView>, labels: Seq<LabelView>) -> Seq<ItemBoxView> {
    Seq::new(
        labels.len(),
        |i: int|
            showing(
                if i < boxes.len() {
                    boxes[i]
                } else {
                    empty_box()
                },
                labels[i],
            ),
    )
}

/// Tells a box to show a label.
pub fn update_item_box(b: ItemBox, label: &UsageLabel) -> (r: ItemBox)
    ensures
        r@ == showing(b@, label@),
{
    match &label.icon {
        Some(icon) => ItemBox {
            icon: Some(icon.icon_name.clone()),
            label: Some(label.text.clone()),
            tooltip: Some(icon.tooltip.clone()),
        },
        None => ItemBox { icon: None, label: Some(label.text.clone()), tooltip: b.tooltip },
    }
}

/// Tells boxes to show labels.
pub fn fill_usage_box(boxes: &Vec<ItemBox>, contents: &UsageLabels) -> (r: Vec<ItemBox>)
    ensures
        box_views(r@) == filled(box_views(boxes@), contents@),
{
    let ghost expected = filled(box_views(boxes@), contents@);
    let mut r: Vec<ItemBox> = Vec::new();
    let mut i: usize = 0;
    while i < contents.labels.len()
        invariant
            i <= contents.labels.len(),
            r.len() == i,
            expected == filled(box_views(boxes@), contents@),
            forall|j: int| 0 <= j < i ==> (#[trigger] r@[j])@ == expected[j],
        decreases contents.labels.len() - i,
    {
        let current: ItemBox = if i < boxes.len() {
            ItemBox {
                icon: text::copy_option(&boxes[i].icon),
                label: text::copy_option(&boxes[i].label),
                tooltip: text::copy_option(&boxes[i].tooltip),
            }
        } else {
            ItemBox { icon: None, label: None, tooltip: None }
        };
        proof {
            if i < boxes.len() {
                assert(current@ =~= box_views(boxes@)[i as int]);
            } else {
                assert(current@ =~= empty_box());
            }
        }
        r.push(update_item_box(current, &contents.labels[i]));
        i += 1;
    }
    proof {
        assert(box_views(r@) =~= expected);
    }
    r
}

// The state of an item ------------------------------------------------------------------------

/// An item of the sidebar: its properties, and what its labels show.
pub struct ResStackSidebarItem {
    pub name: String,
    pub name_label: String,
    pub icon: AppIcon,
    pub detail: String,
    pub detail_label: String,
    pub detail_visible: bool,
    pub subtitle: String,
    pub tab_id: String,
    pub usage_labels: UsageLabels,
    /// The page that shows, if one does.
    pub visible: Option<MeterType>,
    pub no_meter_boxes: Vec<ItemBox>,
    pub graph_boxes: Vec<ItemBox>,
    pub progress_boxes: Vec<ItemBox>,
    /// Whether the scale of the graph is fixed.
    pub locked_max_y: bool,
    pub primary_ord: u32,
    pub secondary_ord: u32,
}

/// What a `ResStackSidebarItem` holds.
#[verifier::ext_equal]
pub struct ItemView {
    pub name: Seq<char>,
    pub name_label: Seq<char>,
    pub icon: IconView,
    pub detail: Seq<char>,
    pub detail_label: Seq<char>,
    pub detail_visible: bool,
    pub subtitle: Seq<char>,
    pub tab_id: Seq<char>,
    pub usage_labels: Seq<LabelView>,
    pub visible: Option<MeterType>,
    pub no_meter_boxes: Seq<ItemBoxView>,
    pub graph_boxes: Seq<ItemBoxView>,
    pub progress_boxes: Seq<ItemBoxView>,
    pub locked_max_y: bool,
    pub primary_ord: u32,
    pub secondary_ord: u32,
}

impl View for ResStackSidebarItem {
    type V = ItemView;

    open spec fn view(&self) -> ItemView {
        ItemView {
            name: self.name@,
            name_label: self.name_label@,
            icon: self.icon@,
            detail: self.detail@,
            detail_label: self.detail_label@,
            detail_visible: self.detail_visible,
            subtitle: self.subtitle@,
            tab_id: self.tab_id@,
            usage_labels: self.usage_labels@,
            visible: self.visible,
            no_meter_boxes: box_views(self.no_meter_boxes@),
            graph_boxes: box_views(self.graph_boxes@),
            progress_boxes: box_views(self.progress_boxes@),
            locked_max_y: self.locked_max_y,
            primary_ord: self.primary_ord,
            secondary_ord: self.secondary_ord,
        }
    }
}

/// The item after its name was set.
pub open spec fn with_name(item: ItemView, name: Seq<char>) -> ItemView {
    if item.name == name {
        item
    } else {
        ItemView { name, name_label: name, ..item }
    }
}

/// The item after its detail was set. Its label shows the new one; the property itself
/// is empty where it was something else before.
pub open spec fn with_detail(item: ItemView, detail: Seq<char>) -> ItemView {
    if item.detail == detail {
        item
    } else {
        ItemView { detail: Seq::<char>::empty(), detail_label: detail, ..item }
    }
}

/// The item after its subtitle was set: it is empty where it was something else before.
pub open spec fn with_subtitle(item: ItemView, subtitle: Seq<char>) -> ItemView {
    if item.subtitle == subtitle {
        item
    } else {
        ItemView { subtitle: Seq::<char>::empty(), ..item }
    }
}

/// The page whose boxes show the usage: the one that shows, or else the graph.
pub open spec fn usage_page(visible: Option<MeterType>) -> MeterType {
    match visible {
        Some(page) => page,
        None => MeterType::Graph,
    }
}

/// The item after the boxes of its page were told to show its labels.
pub open spec fn with_boxes_filled(item: ItemView) -> ItemView {
    match usage_page(item.visible) {
        MeterType::NoMeter => ItemView {
            no_meter_boxes: filled(item.no_meter_boxes, item.usage_labels),
            ..item
        },
        MeterType::Graph => ItemView {
            graph_boxes: filled(item.graph_boxes, item.usage_labels),
            ..item
        },
        MeterType::ProgressBar => ItemView {
            progress_boxes: filled(item.progress_boxes, item.usage_labels),
            ..item
        },
    }
}

/// The item after its labels were set.
pub open spec fn with_labels(item: ItemView, labels: Seq<LabelView>) -> ItemView {
    if item.usage_labels == labels {
        item
    } else {
        with_boxes_filled(ItemView { usage_labels: labels, ..item })
    }
}

/// The item after it was told how to show its usage.
pub open spec fn with_meter(item: ItemView, meter: MeterType) -> ItemView {
    with_boxes_filled(ItemView { visible: Some(meter), ..item })
}

/// An item that was just made.
pub open spec fn new_item(
    name: Seq<char>,
    icon: IconView,
    detail: Option<Seq<char>>,
    locked_max_y: bool,
    tab_id: Seq<char>,
    primary_ord: u32,
    secondary_ord: u32,
) -> ItemView {
    let text = match detail {
        Some(d) => d,
        None => Seq::<char>::empty(),
    };
    ItemView {
        name,
        name_label: name,
        icon,
        detail: Seq::<char>::empty(),
        detail_label: text,
        detail_visible: text.len() > 0,
        subtitle: Seq::<char>::empty(),
        tab_id,
        usage_labels: Seq::<LabelView>::empty(),
        visible: None,
        no_meter_boxes: Seq::<ItemBoxView>::empty(),
        graph_boxes: Seq::<ItemBoxView>::empty(),
        progress_boxes: Seq::<ItemBoxView>::empty(),
        locked_max_y,
        primary_ord,
        secondary_ord,
    }
}

/// How one item stands to another one.
#[derive(Debug, Clone, Copy, PartialEq, Eq, Structural)]
pub enum ItemOrder {
    Smaller,
    Equal,
    Larger,
}

/// How one item stands to another one: by the first number, and then by the second.
pub open spec fn order_of(a: (u32, u32), b: (u32, u32)) -> ItemOrder {
    if a.0 > b.0 {
        ItemOrder::Larger
    } else if a.0 < b.0 {
        ItemOrder::Smaller
    } else if a.1 > b.1 {
        ItemOrder::Larger
    } else if a.1 < b.1 {
        ItemOrder::Smaller
    } else {
        ItemOrder::Equal
    }
}

fn empty_text() -> (r: String)
    ensures
        r@ == Seq::<char>::empty(),
{
    let r: String = String::new();
    proof {
        assert(r@ =~= Seq::<char>::empty());
    }
    r
}

impl ResStackSidebarItem {
    /// Makes an item.
    pub fn new(
        name: String,
        icon: AppIcon,
        detail: Option<String>,
        locked_max_y: bool,
        tab_id: String,
        primary_ord: u32,
        secondary_ord: u32,
    ) -> (r: Self)
        ensures
            r@ == new_item(
                name@,
                icon@,
                text::opt_text(detail),
                locked_max_y,
                tab_id@,
                primary_ord,
                secondary_ord,
            ),
    {
        let ghost expected = new_item(
            name@,
            icon@,
            text::opt_text(detail),
            locked_max_y,
            tab_id@,
            primary_ord,
            secondary_ord,
        );
        let detail: String = match detail {
            Some(d) => d,
            None => empty_text(),
        };
        let detail_visible: bool = text::to_chars(detail.as_str()).len() > 0;
        let name_label: String = name.clone();
        let r = ResStackSidebarItem {
            name,
            name_label,
            icon,
            detail: empty_text(),
            detail_label: detail,
            detail_visible,
            subtitle: empty_text(),
            tab_id,
            usage_labels: UsageLabels::default(),
            visible: None,
            no_meter_boxes: Vec::new(),
            graph_boxes: Vec::new(),
            progress_boxes: Vec::new(),
            locked_max_y,
            primary_ord,
            secondary_ord,
        };
        proof {
            assert(r@ =~= expected);
        }
        r
    }

    /// The name.
    pub fn name(&self) -> (r: String)
        ensures
            r@ == self@.name,
    {
        self.name.clone()
    }

    /// The detail.
    pub fn detail(&self) -> (r: String)
        ensures
            r@ == self@.detail,
    {
        self.detail.clone()
    }

    /// The subtitle.
    pub fn subtitle(&self) -> (r: String)
        ensures
            r@ == self@.subtitle,
    {
        self.subtitle.clone()
    }

    /// The icon.
    pub fn icon(&self) -> (r: AppIcon)
        ensures
            r@ == self@.icon,
    {
        self.icon.copy()
    }

    /// Sets the icon.
    pub fn set_icon(&mut self, icon: &AppIcon)
        ensures
            final(self)@ == (ItemView { icon: icon@, ..old(self)@ }),
    {
        self.icon = icon.copy();
    }

    /// Sets the name.
    pub fn set_name(&mut self, name: &str)
        ensures
            final(self)@ == with_name(old(self)@, name@),
    {
        let ghost before = self@;
        if !text::same_text(self.name.as_str(), name) {
            self.name = name.to_string();
            self.name_label = name.to_string();
            proof {
                assert(self@ =~= with_name(before, name@));
            }
        }
    }

    /// Sets the detail.
    pub fn set_detail(&mut self, detail: &str)
        ensures
            final(self)@ == with_detail(old(self)@, detail@),
    {
        let ghost before = self@;
        if !text::same_text(self.detail.as_str(), detail) {
            self.detail = empty_text();
            self.detail_label = detail.to_string();
            proof {
                assert(self@ =~= with_detail(before, detail@));
            }
        }
    }

    /// Sets the subtitle.
    pub fn set_subtitle(&mut self, subtitle: &str)
        ensures
            final(self)@ == with_subtitle(old(self)@, subtitle@),
    {
        let ghost before = self@;
        if !text::same_text(self.subtitle.as_str(), subtitle) {
            self.subtitle = empty_text();
            proof {
                assert(self@ =~= with_subtitle(before, subtitle@));
            }
        }
    }

    /// Sets the identifier of the page.
    pub fn set_tab_id(&mut self, tab_id: &str)
        ensures
            final(self)@ == (ItemView { tab_id: tab_id@, ..old(self)@ }),
    {
        let ghost before = self@;
        self.tab_id = tab_id.to_string();
        proof {
            assert(self@ =~= ItemView { tab_id: tab_id@, ..before });
        }
    }

    /// Shows or hides the detail.
    pub fn set_detail_label_visible(&mut self, visible: bool)
        ensures
            final(self)@ == (ItemView { detail_visible: visible, ..old(self)@ }),
    {
        self.detail_visible = visible;
    }

    /// The page whose boxes show the usage.
    pub fn visible_usage_box(&self) -> (r: MeterType)
        ensures
            r == usage_page(self@.visible),
    {
        match self.visible {
            Some(page) => page,
            None => MeterType::Graph,
        }
    }

    /// Tells the boxes of the page to show the labels.
    pub fn refresh_visible_usage_box(&mut self)
        ensures
            final(self)@ == with_boxes_filled(old(self)@),
    {
        let ghost before = self@;
        match self.visible_usage_box() {
            MeterType::NoMeter => {
                self.no_meter_boxes = fill_usage_box(&self.no_meter_boxes, &self.usage_labels);
            },
            MeterType::Graph => {
                self.graph_boxes = fill_usage_box(&self.graph_boxes, &self.usage_labels);
            },
            MeterType::ProgressBar => {
                self.progress_boxes = fill_usage_box(&self.progress_boxes, &self.usage_labels);
            },
        }
        proof {
            assert(self@ =~= with_boxes_filled(before));
        }
    }

    /// Sets the labels.
    pub fn set_usage_string(&mut self, contents: UsageLabels)
        ensures
            final(self)@ == with_labels(old(self)@, contents@),
    {
        let ghost before = self@;
        let ghost labels = contents@;
        if self.usage_labels.same_as(&contents) {
            return;
        }
        self.usage_labels = contents;
        proof {
            assert(self@ =~= ItemView { usage_labels: labels, ..before });
        }
        self.refresh_visible_usage_box();
    }

    /// Says how the usage is to be shown.
    pub fn set_meter_type(&mut self, meter_type: MeterType)
        ensures
            final(self)@ == with_meter(old(self)@, meter_type),
    {
        let ghost before = self@;
        self.visible = Some(meter_type);
        proof {
            assert(self@ =~= ItemView { visible: Some(meter_type), ..before });
        }
        self.refresh_visible_usage_box();
    }

    /// The number by which items are ordered first.
    pub fn primary_ord(&self) -> (r: u32)
        ensures
            r == self@.primary_ord,
    {
        self.primary_ord
    }

    /// The number by which items are ordered then.
    pub fn secondary_ord(&self) -> (r: u32)
        ensures
            r == self@.secondary_ord,
    {
        self.secondary_ord
    }

    /// How the item stands to another one.
    pub fn ord(&self, other: &Self) -> (r: ItemOrder)
        ensures
            r == order_of(
                (self@.primary_ord, self@.secondary_ord),
                (other@.primary_ord, other@.secondary_ord),
            ),
    {
        if self.primary_ord() > other.primary_ord() {
            ItemOrder::Larger
        } else if self.primary_ord() < other.primary_ord() {
            ItemOrder::Smaller
        } else if self.secondary_ord() > other.secondary_ord() {
            ItemOrder::Larger
        } else if self.secondary_ord() < other.secondary_ord() {
            ItemOrder::Smaller
        } else {
            ItemOrder::Equal
        }
    }
}

/// The style of the labels over a graph, for a dark and for a light background, and the
/// one that it takes the place of.
pub fn label_style(is_dark: bool) -> (r: (&'static str, &'static str))
    ensures
        (r.0@, r.1@) == if is_dark {
            ("dropshadow"@, "dropshadow-light"@)
        } else {
            ("dropshadow-light"@, "dropshadow"@)
        },
{
    if is_dark {
        ("dropshadow", "dropshadow-light")
    } else {
        ("dropshadow-light", "dropshadow")
    }
}

/// The first text among those of a widget and the ones that it stands in.
pub open spec fn first_text(list: Seq<Option<Seq<char>>>) -> Option<Seq<char>>
    decreases list.len(),
{
    if list.len() == 0 {
        None
    } else {
        match list[0] {
            Some(s) => Some(s),
            None => first_text(list.skip(1)),
        }
    }
}

/// The text that explains what is pointed at: the first among those of a widget and the
/// ones that it stands in.
pub fn query_tooltip(tooltips: &Vec<Option<String>>) -> (r: Option<String>)
    ensures
        text::opt_text(r) == first_text(
            Seq::new(tooltips@.len(), |i: int| text::opt_text(tooltips@[i])),
        ),
{
    let ghost all = Seq::new(tooltips@.len(), |i: int| text::opt_text(tooltips@[i]));
    let mut i: usize = 0;
    proof {
        assert(all.skip(0) =~= all);
    }
    while i < tooltips.len()
        invariant
            i <= tooltips.len(),
            all == Seq::new(tooltips@.len(), |i: int| text::opt_text(tooltips@[i])),
            first_text(all.skip(i as int)) == first_text(all),
        decreases tooltips.len() - i,
    {
        proof {
            assert(all.skip(i as int)[0] == text::opt_text(tooltips@[i as int]));
            assert(all.skip(i as int).skip(1) =~= all.skip(i + 1));
        }
        if let Some(s) = &tooltips[i] {
            return Some(s.clone());
        }
        i += 1;
    }
    None
}

// Laws -------------------------------------------------------------------------------------------

/// Items are in a total order: two stand to each other as the other way round, and what
/// stands before a second that stands before a third stands before the third.
pub proof fn order_is_total(a: (u32, u32), b: (u32, u32), c: (u32, u32))
    ensures
        order_of(a, b) == ItemOrder::Equal <==> a == b,
        order_of(a, b) == ItemOrder::Smaller <==> order_of(b, a) == ItemOrder::Larger,
        order_of(a, b) == ItemOrder::Smaller && order_of(b, c) == ItemOrder::Smaller ==> order_of(
            a,
            c,
        ) == ItemOrder::Smaller,
{
}

/// Boxes that were told to show labels show them, and there are no others.
pub proof fn boxes_show_labels(boxes: Seq<ItemBoxView>, labels: Seq<LabelView>)
    ensures
        filled(boxes, labels).len() == labels.len(),
        forall|i: int|
            0 <= i < labels.len() ==> (#[trigger] filled(boxes, labels)[i]).label == Some(
                labels[i].text,
            ) && filled(boxes, labels)[i].icon == match labels[i].icon {
                Some((name, _)) => Some(name),
                None => None,
            },
{
}

/// Telling boxes to show the same labels once more changes nothing.
pub proof fn filling_is_idempotent(boxes: Seq<ItemBoxView>, labels: Seq<LabelView>)
    ensures
        filled(filled(boxes, labels), labels) == filled(boxes, labels),
{
    assert(filled(filled(boxes, labels), labels) =~= filled(boxes, labels));
}

/// An item stands before another one where its first number is smaller, or where that is the
/// same and its second number is smaller.
pub proof fn smaller_numbers_stand_first(a: (u32, u32), b: (u32, u32))
    ensures
        order_of(a, b) == ItemOrder::Smaller <==> a.0 < b.0 || (a.0 == b.0 && a.1 < b.1),
        order_of(a, b) == ItemOrder::Larger <==> a.0 > b.0 || (a.0 == b.0 && a.1 > b.1),
{
}

/// The first widget that has a text explains what is pointed at.
pub proof fn first_text_explains(list: Seq<Option<Seq<char>>>, i: int)
    ensures
        0 <= i < list.len() && list[i] is Some && (forall|j: int|
            0 <= j < i ==> (#[trigger] list[j]) is None) ==> first_text(list) == list[i],
        (forall|j: int| 0 <= j < list.len() ==> (#[trigger] list[j]) is None) ==> first_text(
            list,
        ) is None,
    decreases list.len(),
{
    if list.len() > 0 {
        let rest = list.skip(1);
        first_text_explains(rest, i - 1);
        if forall|j: int| 0 <= j < list.len() ==> (#[trigger] list[j]) is None {
            assert(list[0] is None);
            assert forall|j: int| 0 <= j < rest.len() implies (#[trigger] rest[j]) is None by {
                assert(rest[j] == list[j + 1]);
            }
        }
        if 0 < i < list.len() && (forall|j: int| 0 <= j < i ==> (#[trigger] list[j]) is None) {
            assert(list[0] is None);
            assert(rest[i - 1] == list[i]);
            assert forall|j: int| 0 <= j < i - 1 implies (#[trigger] rest[j]) is None by {
                assert(rest[j] == list[j + 1]);
            }
        }
    }
}

/// A box shows what explains the icon of its label; without an icon it keeps what explained
/// it before.
pub proof fn box_explains_its_icon(b: ItemBoxView, label: LabelView)
    ensures
        showing(b, label).label == Some(label.text),
        label.icon matches Some((name, tooltip)) ==> showing(b, label).icon == Some(name)
            && showing(b, label).tooltip == Some(tooltip),
        label.icon is None ==> showing(b, label).icon is None && showing(b, label).tooltip
            == b.tooltip,
{
}

/// Boxes that are there keep what explained them where a label has no icon; new ones are
/// explained by nothing.
pub proof fn boxes_are_used_again(boxes: Seq<ItemBoxView>, labels: Seq<LabelView>, i: int)
    requires
        0 <= i < labels.len(),
        labels[i].icon is None,
    ensures
        i < boxes.len() ==> filled(boxes, labels)[i].tooltip == boxes[i].tooltip,
        i >= boxes.len() ==> filled(boxes, labels)[i].tooltip is None,
{
}

/// The page that shows is told of new labels, or the graph where none shows; the boxes of
/// the other pages stay.
pub proof fn shown_page_has_labels(item: ItemView, labels: Seq<LabelView>)
    requires
        item.usage_labels != labels,
    ensures
        ({
            let r = with_labels(item, labels);
            &&& r.usage_labels == labels
            &&& r.visible == item.visible
            &&& r.no_meter_boxes == if item.visible == Some(MeterType::NoMeter) {
                filled(item.no_meter_boxes, labels)
            } else {
                item.no_meter_boxes
            }
            &&& r.graph_boxes == if item.visible == Some(MeterType::Graph) || item.visible is None {
                filled(item.graph_boxes, labels)
            } else {
                item.graph_boxes
            }
            &&& r.progress_boxes == if item.visible == Some(MeterType::ProgressBar) {
                filled(item.progress_boxes, labels)
            } else {
                item.progress_boxes
            }
            &&& r.name == item.name
            &&& r.detail_label == item.detail_label
        }),
{
}

/// An item that is told how to show its usage shows that page, with its labels on it.
pub proof fn chosen_page_shows(item: ItemView, meter: MeterType)
    ensures
        ({
            let r = with_meter(item, meter);
            &&& r.visible == Some(meter)
            &&& r.usage_labels == item.usage_labels
            &&& meter == MeterType::NoMeter ==> r.no_meter_boxes == filled(
                item.no_meter_boxes,
                item.usage_labels,
            ) && r.graph_boxes == item.graph_boxes && r.progress_boxes == item.progress_boxes
            &&& meter == MeterType::Graph ==> r.graph_boxes == filled(
                item.graph_boxes,
                item.usage_labels,
            ) && r.no_meter_boxes == item.no_meter_boxes && r.progress_boxes
                == item.progress_boxes
            &&& meter == MeterType::ProgressBar ==> r.progress_boxes == filled(
                item.progress_boxes,
                item.usage_labels,
            ) && r.no_meter_boxes == item.no_meter_boxes && r.graph_boxes == item.graph_boxes
        }),
{
}

/// A new item has its name, its icon and its numbers; its detail shows where it has one.
pub proof fn new_item_shows_what_it_was_given(
    name: Seq<char>,
    icon: IconView,
    detail: Option<Seq<char>>,
    locked_max_y: bool,
    tab_id: Seq<char>,
    primary_ord: u32,
    secondary_ord: u32,
)
    ensures
        ({
            let r = new_item(name, icon, detail, locked_max_y, tab_id, primary_ord, secondary_ord);
            &&& r.name == name && r.name_label == name
            &&& r.icon == icon
            &&& detail matches Some(d) ==> r.detail_label == d && (r.detail_visible <==> d.len()
                > 0)
            &&& detail is None ==> r.detail_label.len() == 0 && !r.detail_visible
            &&& r.locked_max_y == locked_max_y
            &&& r.tab_id == tab_id
            &&& r.primary_ord == primary_ord && r.secondary_ord == secondary_ord
            &&& r.usage_labels.len() == 0
            &&& r.visible is None
        }),
{
}

/// A name that is set shows, and so does a detail that was none before.
pub proof fn set_texts_show(item: ItemView, text: Seq<char>)
    ensures
        with_name(item, text).name == text,
        item.name != text ==> with_name(item, text).name_label == text,
        with_name(item, text).detail_label == item.detail_label,
        item.detail != text ==> with_detail(item, text).detail_label == text,
        with_detail(item, text).name == item.name,
        item.subtitle == text ==> with_subtitle(item, text) == item,
        item.subtitle != text ==> with_subtitle(item, text).subtitle.len() == 0,
{
}

} // verus!
