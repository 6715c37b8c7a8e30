//! How a device is connected.

use vstd::prelude::*;

use crate::text;

verus! {

/// What a connection does. Connections that do different things may be shown alike,
/// so `id` says which one it is: no two have the same.
pub struct LinkValue {
    pub id: u64,
    /// How it is shown.
    pub text: String,
}

/// What a `LinkValue` holds.
#[verifier::ext_equal]
pub struct LinkValueView {
    pub id: u64,
    pub text: Seq<char>,
}

impl View for LinkValue {
    type V = LinkValueView;

    open spec fn view(&self) -> LinkValueView {
        LinkValueView { id: self.id, text: self.text@ }
    }
}

/// What a connection does now and, where it is known, what it can do at most.
pub struct LinkData {
    pub current: LinkValue,
    pub max: Option<LinkValue>,
}

/// What a `LinkData` holds.
#[verifier::ext_equal]
pub struct LinkDataView {
    pub current: LinkValueView,
    pub max: Option<LinkValueView>,
}

impl View for LinkData {
    type V = LinkDataView;

    open spec fn view(&self) -> LinkDataView {
        LinkDataView {
            current: self.current@,
            max: match self.max {
                Some(max) => Some(max@),
                None => None,
            },
        }
    }
}

/// How a connection is shown: with the most that it can do where that is something
/// else than what it does.
pub open spec fn link_data_text(data: LinkDataView) -> Seq<char> {
    match data.max {
        Some(max) => if data.current.id != max.id {
            data.current.text + " / "@ + max.text
        } else {
            data.current.text
        },
        None => data.current.text,
    }
}

impl LinkData {
    /// How the connection is shown.
    pub fn to_string(&self) -> (r: String)
        ensures
            r@ == link_data_text(self@),
    {
        if let Some(max) = &self.max {
            if self.current.id != max.id {
                let mut chars: Vec<char> = text::to_chars(self.current.text.as_str());
                text::append_chars(&mut chars, &text::to_chars(" / "));
                text::append_chars(&mut chars, &text::to_chars(max.text.as_str()));
                return text::to_text(&chars);
            }
        }
        self.current.text.clone()
    }
}

/// A connection.
pub enum Link {
    Pcie(LinkData),
    Sata(LinkData),
    Usb(LinkData),
    Wifi(LinkData),
    Unknown,
}

impl Default for Link {
    fn default() -> (r: Self)
        ensures
            r is Unknown,
    {
        Link::Unknown
    }
}

/// How a connection is shown; `unknown` is shown for one that is not known.
pub open spec fn link_text(link: Link, unknown: Seq<char>) -> Seq<char> {
    match link {
        Link::Pcie(data) => link_data_text(data@),
        Link::Sata(data) => link_data_text(data@),
        Link::Usb(data) => link_data_text(data@),
        Link::Wifi(data) => link_data_text(data@),
        Link::Unknown => unknown,
    }
}

impl Link {
    /// How the connection is shown.
    pub fn to_string(&self, unknown: &str) -> (r: String)
        ensures
            r@ == link_text(*self, unknown@),
    {
        match self {
            Link::Pcie(data) => data.to_string(),
            Link::Sata(data) => data.to_string(),
            Link::Usb(data) => data.to_string(),
            Link::Wifi(data) => data.to_string(),
            Link::Unknown => unknown.to_string(),
        }
    }
}

/// A connection that does the most it can is shown once, and so is one of which the
/// most is not known. One that can do something else is shown with that, also where
/// both are shown alike.
pub proof fn maximum_shown_where_it_differs(current: LinkValueView, max: LinkValueView)
    ensures
        link_data_text(LinkDataView { current, max: None }) == current.text,
        current.id == max.id ==> link_data_text(LinkDataView { current, max: Some(max) })
            == current.text,
        current.id != max.id ==> link_data_text(LinkDataView { current, max: Some(max) })
            == current.text + " / "@ + max.text,
{
}

} // verus!
