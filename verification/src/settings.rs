//! The settings: their names, and how their values are stored.

use vstd::prelude::*;

use crate::text;

verus! {

/// The name under which a setting is stored: with hyphens for underscores.
pub open spec fn key_of(name: Seq<char>) -> Seq<char> {
    Seq::new(
        name.len(),
        |i: int|
            if name[i] == '_' {
                '-'
            } else {
                name[i]
            },
    )
}

/// The name under which a setting is stored.
pub fn setting_key(name: &str) -> (r: String)
    ensures
        r@ == key_of(name@),
{
    let chars: Vec<char> = text::to_chars(name);
    let mut r: String = String::new();
    let mut i: usize = 0;
    while i < chars.len()
        invariant
            i <= chars.len(),
            chars@ == name@,
            r@ == key_of(name@).take(i as int),
        decreases chars.len() - i,
    {
        let c: char = chars[i];
        r.push(
            if c == '_' {
                '-'
            } else {
                c
            },
        );
        i += 1;
        proof {
            assert(key_of(name@).take(i as int) =~= key_of(name@).take(i - 1).push(
                key_of(name@)[i - 1],
            ));
        }
    }
    proof {
        assert(key_of(name@).take(i as int) =~= key_of(name@));
    }
    r
}

/// The base of the prefixes of units.
#[derive(Debug, Clone, Copy, PartialEq, Eq, Hash, Structural)]
pub enum Base {
    /// Powers of 1000.
    Decimal,
    /// Powers of 1024.
    Binary,
}

impl Default for Base {
    fn default() -> (r: Self)
        ensures
            r == Base::Decimal,
    {
        Base::Decimal
    }
}

/// How a value is stored.
pub open spec fn base_text(v: Base) -> Seq<char> {
    match v {
        Base::Decimal => "Decimal"@,
        Base::Binary => "Binary"@,
    }
}

/// The value that a text stands for.
pub open spec fn base_of(s: Seq<char>) -> Option<Base> {
    if s == "Decimal"@ {
        Some(Base::Decimal)
    } else if s == "Binary"@ {
        Some(Base::Binary)
    } else {
        None
    }
}

/// The value with the given number, counted from 0.
pub open spec fn base_at(n: u8) -> Option<Base> {
    if n == 0 {
        Some(Base::Decimal)
    } else if n == 1 {
        Some(Base::Binary)
    } else {
        None
    }
}

impl Base {
    /// Reads a stored value.
    pub fn from_str(s: &str) -> (r: Option<Self>)
        ensures
            r == base_of(s@),
    {
        if text::same_text(s, "Decimal") {
            Some(Base::Decimal)
        } else if text::same_text(s, "Binary") {
            Some(Base::Binary)
        } else {
            None
        }
    }

    /// Reads a stored value; the default where it stands for none.
    pub fn from_setting(s: &str) -> (r: Self)
        ensures
            r == match base_of(s@) {
                Some(v) => v,
                None => Base::Decimal,
            },
    {
        match Self::from_str(s) {
            Some(v) => v,
            None => Self::default(),
        }
    }

    /// How the value is stored.
    pub fn to_string(&self) -> (r: String)
        ensures
            r@ == base_text(*self),
    {
        match self {
            Base::Decimal => "Decimal".to_string(),
            Base::Binary => "Binary".to_string(),
        }
    }

    /// The value with the given number, counted from 0.
    pub fn from_repr(n: u8) -> (r: Option<Self>)
        ensures
            r == base_at(n),
    {
        match n {
            0 => Some(Base::Decimal),
            1 => Some(Base::Binary),
            _ => None,
        }
    }

    /// The factor from one prefix to the next.
    pub fn base(&self) -> (r: u32)
        ensures
            r == match self {
                Base::Decimal => 1000,
                Base::Binary => 1024int,
            },
    {
        match self {
            Base::Decimal => 1000,
            Base::Binary => 1024,
        }
    }
}

/// A value that was stored is read back.
pub proof fn base_round_trip(v: Base)
    ensures
        base_of(base_text(v)) == Some(v),
{
    reveal_strlit("Decimal");
    reveal_strlit("Binary");
    assert("Binary"@.len() != "Decimal"@.len());
}

/// In what unit temperatures are shown.
#[derive(Debug, Clone, Copy, PartialEq, Eq, Hash, Structural)]
pub enum TemperatureUnit {
    Celsius,
    Kelvin,
    Fahrenheit,
}

impl Default for TemperatureUnit {
    fn default() -> (r: Self)
        ensures
            r == TemperatureUnit::Celsius,
    {
        TemperatureUnit::Celsius
    }
}

/// How a value is stored.
pub open spec fn temperature_unit_text(v: TemperatureUnit) -> Seq<char> {
    match v {
        TemperatureUnit::Celsius => "Celsius"@,
        TemperatureUnit::Kelvin => "Kelvin"@,
        TemperatureUnit::Fahrenheit => "Fahrenheit"@,
    }
}

/// The value that a text stands for.
pub open spec fn temperature_unit_of(s: Seq<char>) -> Option<TemperatureUnit> {
    if s == "Celsius"@ {
        Some(TemperatureUnit::Celsius)
    } else if s == "Kelvin"@ {
        Some(TemperatureUnit::Kelvin)
    } else if s == "Fahrenheit"@ {
        Some(TemperatureUnit::Fahrenheit)
    } else {
        None
    }
}

/// The value with the given number, counted from 0.
pub open spec fn temperature_unit_at(n: u8) -> Option<TemperatureUnit> {
    if n == 0 {
        Some(TemperatureUnit::Celsius)
    } else if n == 1 {
        Some(TemperatureUnit::Kelvin)
    } else if n == 2 {
        Some(TemperatureUnit::Fahrenheit)
    } else {
        None
    }
}

impl TemperatureUnit {
    /// Reads a stored value.
    pub fn from_str(s: &str) -> (r: Option<Self>)
        ensures
            r == temperature_unit_of(s@),
    {
        if text::same_text(s, "Celsius") {
            Some(TemperatureUnit::Celsius)
        } else if text::same_text(s, "Kelvin") {
            Some(TemperatureUnit::Kelvin)
        } else if text::same_text(s, "Fahrenheit") {
            Some(TemperatureUnit::Fahrenheit)
        } else {
            None
        }
    }

    /// Reads a stored value; the default where it stands for none.
    pub fn from_setting(s: &str) -> (r: Self)
        ensures
            r == match temperature_unit_of(s@) {
                Some(v) => v,
                None => TemperatureUnit::Celsius,
            },
    {
        match Self::from_str(s) {
            Some(v) => v,
            None => Self::default(),
        }
    }

    /// How the value is stored.
    pub fn to_string(&self) -> (r: String)
        ensures
            r@ == temperature_unit_text(*self),
    {
        match self {
            TemperatureUnit::Celsius => "Celsius".to_string(),
            TemperatureUnit::Kelvin => "Kelvin".to_string(),
            TemperatureUnit::Fahrenheit => "Fahrenheit".to_string(),
        }
    }

    /// The value with the given number, counted from 0.
    pub fn from_repr(n: u8) -> (r: Option<Self>)
        ensures
            r == temperature_unit_at(n),
    {
        match n {
            0 => Some(TemperatureUnit::Celsius),
            1 => Some(TemperatureUnit::Kelvin),
            2 => Some(TemperatureUnit::Fahrenheit),
            _ => None,
        }
    }
}

/// A value that was stored is read back.
pub proof fn temperature_unit_round_trip(v: TemperatureUnit)
    ensures
        temperature_unit_of(temperature_unit_text(v)) == Some(v),
{
    reveal_strlit("Celsius");
    reveal_strlit("Kelvin");
    reveal_strlit("Fahrenheit");
    assert("Kelvin"@.len() != "Celsius"@.len());
    assert("Fahrenheit"@.len() != "Celsius"@.len());
    assert("Fahrenheit"@.len() != "Kelvin"@.len());
}

/// How often everything is refreshed.
#[derive(Debug, Clone, Copy, PartialEq, Eq, Hash, Structural)]
pub enum RefreshSpeed {
    VerySlow,
    Slow,
    Normal,
    Fast,
    VeryFast,
}

impl Default for RefreshSpeed {
    fn default() -> (r: Self)
        ensures
            r == RefreshSpeed::Normal,
    {
        RefreshSpeed::Normal
    }
}

/// How a value is stored.
pub open spec fn refresh_speed_text(v: RefreshSpeed) -> Seq<char> {
    match v {
        RefreshSpeed::VerySlow => "VerySlow"@,
        RefreshSpeed::Slow => "Slow"@,
        RefreshSpeed::Normal => "Normal"@,
        RefreshSpeed::Fast => "Fast"@,
        RefreshSpeed::VeryFast => "VeryFast"@,
    }
}

/// The value that a text stands for.
pub open spec fn refresh_speed_of(s: Seq<char>) -> Option<RefreshSpeed> {
    if s == "VerySlow"@ {
        Some(RefreshSpeed::VerySlow)
    } else if s == "Slow"@ {
        Some(RefreshSpeed::Slow)
    } else if s == "Normal"@ {
        Some(RefreshSpeed::Normal)
    } else if s == "Fast"@ {
        Some(RefreshSpeed::Fast)
    } else if s == "VeryFast"@ {
        Some(RefreshSpeed::VeryFast)
    } else {
        None
    }
}

/// The value with the given number, counted from 0.
pub open spec fn refresh_speed_at(n: u8) -> Option<RefreshSpeed> {
    if n == 0 {
        Some(RefreshSpeed::VerySlow)
    } else if n == 1 {
        Some(RefreshSpeed::Slow)
    } else if n == 2 {
        Some(RefreshSpeed::Normal)
    } else if n == 3 {
        Some(RefreshSpeed::Fast)
    } else if n == 4 {
        Some(RefreshSpeed::VeryFast)
    } else {
        None
    }
}

impl RefreshSpeed {
    /// Reads a stored value.
    pub fn from_str(s: &str) -> (r: Option<Self>)
        ensures
            r == refresh_speed_of(s@),
    {
        if text::same_text(s, "VerySlow") {
            Some(RefreshSpeed::VerySlow)
        } else if text::same_text(s, "Slow") {
            Some(RefreshSpeed::Slow)
        } else if text::same_text(s, "Normal") {
            Some(RefreshSpeed::Normal)
        } else if text::same_text(s, "Fast") {
            Some(RefreshSpeed::Fast)
        } else if text::same_text(s, "VeryFast") {
            Some(RefreshSpeed::VeryFast)
        } else {
            None
        }
    }

    /// Reads a stored value; the default where it stands for none.
    pub fn from_setting(s: &str) -> (r: Self)
        ensures
            r == match refresh_speed_of(s@) {
                Some(v) => v,
                None => RefreshSpeed::Normal,
            },
    {
        match Self::from_str(s) {
            Some(v) => v,
            None => Self::default(),
        }
    }

    /// How the value is stored.
    pub fn to_string(&self) -> (r: String)
        ensures
            r@ == refresh_speed_text(*self),
    {
        match self {
            RefreshSpeed::VerySlow => "VerySlow".to_string(),
            RefreshSpeed::Slow => "Slow".to_string(),
            RefreshSpeed::Normal => "Normal".to_string(),
            RefreshSpeed::Fast => "Fast".to_string(),
            RefreshSpeed::VeryFast => "VeryFast".to_string(),
        }
    }

    /// The value with the given number, counted from 0.
    pub fn from_repr(n: u8) -> (r: Option<Self>)
        ensures
            r == refresh_speed_at(n),
    {
        match n {
            0 => Some(RefreshSpeed::VerySlow),
            1 => Some(RefreshSpeed::Slow),
            2 => Some(RefreshSpeed::Normal),
            3 => Some(RefreshSpeed::Fast),
            4 => Some(RefreshSpeed::VeryFast),
            _ => None,
        }
    }

    /// The time between two refreshes, in milliseconds.
    pub fn ui_refresh_interval(&self) -> (r: u32)
        ensures
            r == match self {
                RefreshSpeed::VerySlow => 3000,
                RefreshSpeed::Slow => 2000,
                RefreshSpeed::Normal => 1000,
                RefreshSpeed::Fast => 500,
                RefreshSpeed::VeryFast => 250int,
            },
    {
        match self {
            RefreshSpeed::VerySlow => 3000,
            RefreshSpeed::Slow => 2000,
            RefreshSpeed::Normal => 1000,
            RefreshSpeed::Fast => 500,
            RefreshSpeed::VeryFast => 250,
        }
    }
}

/// A value that was stored is read back.
pub proof fn refresh_speed_round_trip(v: RefreshSpeed)
    ensures
        refresh_speed_of(refresh_speed_text(v)) == Some(v),
{
    reveal_strlit("VerySlow");
    reveal_strlit("Slow");
    reveal_strlit("Normal");
    reveal_strlit("Fast");
    reveal_strlit("VeryFast");
    assert("Slow"@.len() != "VerySlow"@.len());
    assert("Normal"@.len() != "VerySlow"@.len());
    assert("Normal"@.len() != "Slow"@.len());
    assert("Fast"@.len() != "VerySlow"@.len());
    assert("Fast"@[0] != "Slow"@[0]);
    assert("Fast"@.len() != "Normal"@.len());
    assert("VeryFast"@[4] != "VerySlow"@[4]);
    assert("VeryFast"@.len() != "Slow"@.len());
    assert("VeryFast"@.len() != "Normal"@.len());
    assert("VeryFast"@.len() != "Fast"@.len());
}

/// How usage is shown in the sidebar.
#[derive(Debug, Clone, Copy, PartialEq, Eq, Hash, Structural)]
pub enum SidebarMeterType {
    ProgressBar,
    Graph,
}

impl Default for SidebarMeterType {
    fn default() -> (r: Self)
        ensures
            r == SidebarMeterType::ProgressBar,
    {
        SidebarMeterType::ProgressBar
    }
}

/// How a value is stored.
pub open spec fn sidebar_meter_type_text(v: SidebarMeterType) -> Seq<char> {
    match v {
        SidebarMeterType::ProgressBar => "ProgressBar"@,
        SidebarMeterType::Graph => "Graph"@,
    }
}

/// The value that a text stands for.
pub open spec fn sidebar_meter_type_of(s: Seq<char>) -> Option<SidebarMeterType> {
    if s == "ProgressBar"@ {
        Some(SidebarMeterType::ProgressBar)
    } else if s == "Graph"@ {
        Some(SidebarMeterType::Graph)
    } else {
        None
    }
}

/// The value with the given number, counted from 0.
pub open spec fn sidebar_meter_type_at(n: u8) -> Option<SidebarMeterType> {
    if n == 0 {
        Some(SidebarMeterType::ProgressBar)
    } else if n == 1 {
        Some(SidebarMeterType::Graph)
    } else {
        None
    }
}

impl SidebarMeterType {
    /// Reads a stored value.
    pub fn from_str(s: &str) -> (r: Option<Self>)
        ensures
            r == sidebar_meter_type_of(s@),
    {
        if text::same_text(s, "ProgressBar") {
            Some(SidebarMeterType::ProgressBar)
        } else if text::same_text(s, "Graph") {
            Some(SidebarMeterType::Graph)
        } else {
            None
        }
    }

    /// Reads a stored value; the default where it stands for none.
    pub fn from_setting(s: &str) -> (r: Self)
        ensures
            r == match sidebar_meter_type_of(s@) {
                Some(v) => v,
                None => SidebarMeterType::ProgressBar,
            },
    {
        match Self::from_str(s) {
            Some(v) => v,
            None => Self::default(),
        }
    }

    /// How the value is stored.
    pub fn to_string(&self) -> (r: String)
        ensures
            r@ == sidebar_meter_type_text(*self),
    {
        match self {
            SidebarMeterType::ProgressBar => "ProgressBar".to_string(),
            SidebarMeterType::Graph => "Graph".to_string(),
        }
    }

    /// The value with the given number, counted from 0.
    pub fn from_repr(n: u8) -> (r: Option<Self>)
        ensures
            r == sidebar_meter_type_at(n),
    {
        match n {
            0 => Some(SidebarMeterType::ProgressBar),
            1 => Some(SidebarMeterType::Graph),
            _ => None,
        }
    }
}

/// A value that was stored is read back.
pub proof fn sidebar_meter_type_round_trip(v: SidebarMeterType)
    ensures
        sidebar_meter_type_of(sidebar_meter_type_text(v)) == Some(v),
{
    reveal_strlit("ProgressBar");
    reveal_strlit("Graph");
    assert("Graph"@.len() != "ProgressBar"@.len());
}

/// Which memory counts as that of a process.
#[derive(Debug, Clone, Copy, PartialEq, Eq, Hash, Structural)]
pub enum MemoryMetric {
    /// Virtual memory that the process allocated, used or not.
    VmSize,
    /// Physical memory that the process uses, shared libraries included.
    Rss,
    /// Physical memory that only the process uses, without shared libraries.
    RssNoSharedMemory,
    /// Physical memory of the heap and the stack, without files and shared libraries.
    RssAnon,
    /// Physical memory with shared libraries counted approximately in proportion, or else
    /// `RssNoSharedMemory`.
    ApproximatePss,
    /// Physical memory with shared libraries counted in proportion, or else
    /// `RssNoSharedMemory`.
    Pss,
}

impl Default for MemoryMetric {
    fn default() -> (r: Self)
        ensures
            r == MemoryMetric::RssNoSharedMemory,
    {
        MemoryMetric::RssNoSharedMemory
    }
}

/// How a value is stored.
pub open spec fn memory_metric_text(v: MemoryMetric) -> Seq<char> {
    match v {
        MemoryMetric::VmSize => "VmSize"@,
        MemoryMetric::Rss => "Rss"@,
        MemoryMetric::RssNoSharedMemory => "RssNoSharedMemory"@,
        MemoryMetric::RssAnon => "RssAnon"@,
        MemoryMetric::ApproximatePss => "ApproximatePss"@,
        MemoryMetric::Pss => "Pss"@,
    }
}

/// The value that a text stands for.
pub open spec fn memory_metric_of(s: Seq<char>) -> Option<MemoryMetric> {
    if s == "VmSize"@ {
        Some(MemoryMetric::VmSize)
    } else if s == "Rss"@ {
        Some(MemoryMetric::Rss)
    } else if s == "RssNoSharedMemory"@ {
        Some(MemoryMetric::RssNoSharedMemory)
    } else if s == "RssAnon"@ {
        Some(MemoryMetric::RssAnon)
    } else if s == "ApproximatePss"@ {
        Some(MemoryMetric::ApproximatePss)
    } else if s == "Pss"@ {
        Some(MemoryMetric::Pss)
    } else {
        None
    }
}

/// The value with the given number, counted from 0.
pub open spec fn memory_metric_at(n: u8) -> Option<MemoryMetric> {
    if n == 0 {
        Some(MemoryMetric::VmSize)
    } else if n == 1 {
        Some(MemoryMetric::Rss)
    } else if n == 2 {
        Some(MemoryMetric::RssNoSharedMemory)
    } else if n == 3 {
        Some(MemoryMetric::RssAnon)
    } else if n == 4 {
        Some(MemoryMetric::ApproximatePss)
    } else if n == 5 {
        Some(MemoryMetric::Pss)
    } else {
        None
    }
}

impl MemoryMetric {
    /// Reads a stored value.
    pub fn from_str(s: &str) -> (r: Option<Self>)
        ensures
            r == memory_metric_of(s@),
    {
        if text::same_text(s, "VmSize") {
            Some(MemoryMetric::VmSize)
        } else if text::same_text(s, "Rss") {
            Some(MemoryMetric::Rss)
        } else if text::same_text(s, "RssNoSharedMemory") {
            Some(MemoryMetric::RssNoSharedMemory)
        } else if text::same_text(s, "RssAnon") {
            Some(MemoryMetric::RssAnon)
        } else if text::same_text(s, "ApproximatePss") {
            Some(MemoryMetric::ApproximatePss)
        } else if text::same_text(s, "Pss") {
            Some(MemoryMetric::Pss)
        } else {
            None
        }
    }

    /// Reads a stored value; the default where it stands for none.
    pub fn from_setting(s: &str) -> (r: Self)
        ensures
            r == match memory_metric_of(s@) {
                Some(v) => v,
                None => MemoryMetric::RssNoSharedMemory,
            },
    {
        match Self::from_str(s) {
            Some(v) => v,
            None => Self::default(),
        }
    }

    /// How the value is stored.
    pub fn to_string(&self) -> (r: String)
        ensures
            r@ == memory_metric_text(*self),
    {
        match self {
            MemoryMetric::VmSize => "VmSize".to_string(),
            MemoryMetric::Rss => "Rss".to_string(),
            MemoryMetric::RssNoSharedMemory => "RssNoSharedMemory".to_string(),
            MemoryMetric::RssAnon => "RssAnon".to_string(),
            MemoryMetric::ApproximatePss => "ApproximatePss".to_string(),
            MemoryMetric::Pss => "Pss".to_string(),
        }
    }

    /// The value with the given number, counted from 0.
    pub fn from_repr(n: u8) -> (r: Option<Self>)
        ensures
            r == memory_metric_at(n),
    {
        match n {
            0 => Some(MemoryMetric::VmSize),
            1 => Some(MemoryMetric::Rss),
            2 => Some(MemoryMetric::RssNoSharedMemory),
            3 => Some(MemoryMetric::RssAnon),
            4 => Some(MemoryMetric::ApproximatePss),
            5 => Some(MemoryMetric::Pss),
            _ => None,
        }
    }
}

/// A value that was stored is read back.
pub proof fn memory_metric_round_trip(v: MemoryMetric)
    ensures
        memory_metric_of(memory_metric_text(v)) == Some(v),
{
    reveal_strlit("VmSize");
    reveal_strlit("Rss");
    reveal_strlit("RssNoSharedMemory");
    reveal_strlit("RssAnon");
    reveal_strlit("ApproximatePss");
    reveal_strlit("Pss");
    assert("Rss"@.len() != "VmSize"@.len());
    assert("RssNoSharedMemory"@.len() != "VmSize"@.len());
    assert("RssNoSharedMemory"@.len() != "Rss"@.len());
    assert("RssAnon"@.len() != "VmSize"@.len());
    assert("RssAnon"@.len() != "Rss"@.len());
    assert("RssAnon"@.len() != "RssNoSharedMemory"@.len());
    assert("ApproximatePss"@.len() != "VmSize"@.len());
    assert("ApproximatePss"@.len() != "Rss"@.len());
    assert("ApproximatePss"@.len() != "RssNoSharedMemory"@.len());
    assert("ApproximatePss"@.len() != "RssAnon"@.len());
    assert("Pss"@.len() != "VmSize"@.len());
    assert("Pss"@[0] != "Rss"@[0]);
    assert("Pss"@.len() != "RssNoSharedMemory"@.len());
    assert("Pss"@.len() != "RssAnon"@.len());
    assert("Pss"@.len() != "ApproximatePss"@.len());
}

// Sorting ------------------------------------------------------------------------

/// In which direction a list is sorted.
#[derive(Debug, Clone, Copy, PartialEq, Eq, Hash, Structural)]
pub enum SortType {
    Ascending,
    Descending,
}

/// The direction that is stored as whether it is the ascending one.
pub open spec fn sort_type_of(ascending: bool) -> SortType {
    if ascending {
        SortType::Ascending
    } else {
        SortType::Descending
    }
}

impl SortType {
    /// Reads a stored direction.
    pub fn from_setting(ascending: bool) -> (r: Self)
        ensures
            r == sort_type_of(ascending),
    {
        if ascending {
            SortType::Ascending
        } else {
            SortType::Descending
        }
    }

    /// How the direction is stored.
    pub fn to_setting(self) -> (r: bool)
        ensures
            r == (self == SortType::Ascending),
    {
        matches!(self, SortType::Ascending)
    }
}

/// A direction that was stored is read back.
pub proof fn sort_type_round_trip(v: SortType)
    ensures
        sort_type_of(v == SortType::Ascending) == v,
{
}

/// Every underscore of a name becomes a hyphen, and nothing else changes.
pub proof fn underscores_become_hyphens(name: Seq<char>, i: int)
    requires
        0 <= i < name.len(),
    ensures
        key_of(name).len() == name.len(),
        name[i] == '_' ==> key_of(name)[i] == '-',
        name[i] != '_' ==> key_of(name)[i] == name[i],
{
}

/// Every value is stored under its own name and goes by its place in the order; what is
/// stored otherwise stands for none.
pub proof fn base_by_name(s: Seq<char>, n: u8)
    ensures
        base_text(Base::Decimal) == "Decimal"@,
        base_at(0) == Some(Base::Decimal),
        base_text(Base::Binary) == "Binary"@,
        base_at(1) == Some(Base::Binary),
        s != "Decimal"@ && s != "Binary"@ ==> base_of(s) is None,
        n > 1 ==> base_at(n) is None,
{
}

/// Every value is stored under its own name and goes by its place in the order; what is
/// stored otherwise stands for none.
pub proof fn temperature_unit_by_name(s: Seq<char>, n: u8)
    ensures
        temperature_unit_text(TemperatureUnit::Celsius) == "Celsius"@,
        temperature_unit_at(0) == Some(TemperatureUnit::Celsius),
        temperature_unit_text(TemperatureUnit::Kelvin) == "Kelvin"@,
        temperature_unit_at(1) == Some(TemperatureUnit::Kelvin),
        temperature_unit_text(TemperatureUnit::Fahrenheit) == "Fahrenheit"@,
        temperature_unit_at(2) == Some(TemperatureUnit::Fahrenheit),
        s != "Celsius"@ && s != "Kelvin"@ && s != "Fahrenheit"@ ==> temperature_unit_of(s) is None,
        n > 2 ==> temperature_unit_at(n) is None,
{
}

/// Every value is stored under its own name and goes by its place in the order; what is
/// stored otherwise stands for none.
pub proof fn refresh_speed_by_name(s: Seq<char>, n: u8)
    ensures
        refresh_speed_text(RefreshSpeed::VerySlow) == "VerySlow"@,
        refresh_speed_at(0) == Some(RefreshSpeed::VerySlow),
        refresh_speed_text(RefreshSpeed::Slow) == "Slow"@,
        refresh_speed_at(1) == Some(RefreshSpeed::Slow),
        refresh_speed_text(RefreshSpeed::Normal) == "Normal"@,
        refresh_speed_at(2) == Some(RefreshSpeed::Normal),
        refresh_speed_text(RefreshSpeed::Fast) == "Fast"@,
        refresh_speed_at(3) == Some(RefreshSpeed::Fast),
        refresh_speed_text(RefreshSpeed::VeryFast) == "VeryFast"@,
        refresh_speed_at(4) == Some(RefreshSpeed::VeryFast),
        s != "VerySlow"@ && s != "Slow"@ && s != "Normal"@ && s != "Fast"@ && s != "VeryFast"@ ==> refresh_speed_of(s) is None,
        n > 4 ==> refresh_speed_at(n) is None,
{
}

/// Every value is stored under its own name and goes by its place in the order; what is
/// stored otherwise stands for none.
pub proof fn sidebar_meter_type_by_name(s: Seq<char>, n: u8)
    ensures
        sidebar_meter_type_text(SidebarMeterType::ProgressBar) == "ProgressBar"@,
        sidebar_meter_type_at(0) == Some(SidebarMeterType::ProgressBar),
        sidebar_meter_type_text(SidebarMeterType::Graph) == "Graph"@,
        sidebar_meter_type_at(1) == Some(SidebarMeterType::Graph),
        s != "ProgressBar"@ && s != "Graph"@ ==> sidebar_meter_type_of(s) is None,
        n > 1 ==> sidebar_meter_type_at(n) is None,
{
}

/// Every value is stored under its own name and goes by its place in the order; what is
/// stored otherwise stands for none.
pub proof fn memory_metric_by_name(s: Seq<char>, n: u8)
    ensures
        memory_metric_text(MemoryMetric::VmSize) == "VmSize"@,
        memory_metric_at(0) == Some(MemoryMetric::VmSize),
        memory_metric_text(MemoryMetric::Rss) == "Rss"@,
        memory_metric_at(1) == Some(MemoryMetric::Rss),
        memory_metric_text(MemoryMetric::RssNoSharedMemory) == "RssNoSharedMemory"@,
        memory_metric_at(2) == Some(MemoryMetric::RssNoSharedMemory),
        memory_metric_text(MemoryMetric::RssAnon) == "RssAnon"@,
        memory_metric_at(3) == Some(MemoryMetric::RssAnon),
        memory_metric_text(MemoryMetric::ApproximatePss) == "ApproximatePss"@,
        memory_metric_at(4) == Some(MemoryMetric::ApproximatePss),
        memory_metric_text(MemoryMetric::Pss) == "Pss"@,
        memory_metric_at(5) == Some(MemoryMetric::Pss),
        s != "VmSize"@ && s != "Rss"@ && s != "RssNoSharedMemory"@ && s != "RssAnon"@ && s != "ApproximatePss"@ && s != "Pss"@ ==> memory_metric_of(s) is None,
        n > 5 ==> memory_metric_at(n) is None,
{
}

} // verus!
