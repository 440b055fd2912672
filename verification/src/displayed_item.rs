//! The items that are drawn in the main wave form view: waves, dividers, etc.
use crate::wave_refs::TransactionStreamRef;
use vstd::prelude::*;

verus! {

/// The name of a marker that was given none.
pub const DEFAULT_MARKER_NAME: &'static str = "Marker";

/// Key of a displayed item.
#[derive(Debug, Copy, Clone, PartialEq, Eq, Hash, PartialOrd, Ord)]
pub struct DisplayedItemRef(pub usize);

impl From<usize> for DisplayedItemRef {
    fn from(item: usize) -> (res: Self) {
        DisplayedItemRef(item)
    }
}

impl vstd::std_specs::convert::FromSpecImpl<usize> for DisplayedItemRef {
    open spec fn obeys_from_spec() -> bool {
        true
    }

    open spec fn from_spec(item: usize) -> Self {
        DisplayedItemRef(item)
    }
}

/// A displayed item, or one field of it.
#[derive(Debug, Clone, PartialEq, Eq, Hash)]
pub struct DisplayedFieldRef {
    pub item: DisplayedItemRef,
    pub field: Vec<String>,
}

impl DisplayedFieldRef {
    /// The whole item, without the field.
    pub fn without_field(&self) -> (res: DisplayedFieldRef)
        ensures
            res.item == self.item,
            res.field@.len() == 0,
    {
        DisplayedFieldRef { item: self.item, field: Vec::new() }
    }
}

impl From<DisplayedItemRef> for DisplayedFieldRef {
    /// The whole item, without a field.
    fn from(item: DisplayedItemRef) -> (res: Self)
        ensures
            res.item == item,
            res.field@.len() == 0,
    {
        DisplayedFieldRef { item, field: Vec::new() }
    }
}

// Two vectors with the same elements need not be equal values to Verus, so the conversion is
// described by the `ensures` of `from` above rather than by a single value.
impl vstd::std_specs::convert::FromSpecImpl<DisplayedItemRef> for DisplayedFieldRef {
    open spec fn obeys_from_spec() -> bool {
        false
    }

    open spec fn from_spec(item: DisplayedItemRef) -> Self {
        DisplayedFieldRef { item, field: choose|f: Vec<String>| f@.len() == 0 }
    }
}

/// The format chosen for one field of a variable.
#[derive(Debug, Clone)]
pub struct FieldFormat {
    pub field: Vec<String>,
    pub format: String,
}

/// How an analog wave form joins its samples.
#[derive(Debug, Clone, Copy, PartialEq, Eq, Structural, Default)]
pub enum AnalogRenderStyle {
    #[default]
    Step,
    Interpolated,
}

impl AnalogRenderStyle {
    /// The text shown for this style.
    pub fn label(self) -> (res: &'static str)
        ensures
            self == AnalogRenderStyle::Step ==> res@ == "Step"@,
            self == AnalogRenderStyle::Interpolated ==> res@ == "Interpolated"@,
    {
        match self {
            Self::Step => "Step",
            Self::Interpolated => "Interpolated",
        }
    }
}

/// Which range of values the vertical axis of an analog wave form spans.
#[derive(Debug, Clone, Copy, PartialEq, Eq, Structural, Default)]
pub enum AnalogYAxisScale {
    #[default]
    Viewport,
    Global,
    TypeLimits,
}

impl AnalogYAxisScale {
    /// The text shown for this scale.
    pub fn label(self) -> (res: &'static str)
        ensures
            self == AnalogYAxisScale::Viewport ==> res@ == "Viewport"@,
            self == AnalogYAxisScale::Global ==> res@ == "Global"@,
            self == AnalogYAxisScale::TypeLimits ==> res@ == "Type Limits"@,
    {
        match self {
            Self::Viewport => "Viewport",
            Self::Global => "Global",
            Self::TypeLimits => "Type Limits",
        }
    }
}

/// How an analog wave form is drawn.
#[derive(Debug, Clone, Copy, PartialEq, Eq, Structural, Default)]
pub struct AnalogSettings {
    pub render_style: AnalogRenderStyle,
    pub y_axis_scale: AnalogYAxisScale,
}

impl AnalogSettings {
    /// Downgrade `TypeLimits` to `Global` when the translator doesn't support numeric ranges.
    pub fn downgrade_type_limits(&mut self)
        ensures
            final(self).render_style == old(self).render_style,
            final(self).y_axis_scale == (if old(self).y_axis_scale == AnalogYAxisScale::TypeLimits {
                AnalogYAxisScale::Global
            } else {
                old(self).y_axis_scale
            }),
    {
        if self.y_axis_scale == AnalogYAxisScale::TypeLimits {
            self.y_axis_scale = AnalogYAxisScale::Global;
        }
    }
}

/// Per-variable analog state. Presence means enabled, None means disabled.
#[derive(Debug, Clone, Copy, PartialEq, Eq, Structural)]
pub struct AnalogVarState {
    pub settings: AnalogSettings,
}

impl AnalogVarState {
    /// Analog drawing with the given settings.
    pub fn new(settings: AnalogSettings) -> (res: Self)
        ensures
            res.settings == settings,
    {
        Self { settings }
    }
}

/// A horizontal divider between items.
#[derive(Debug, Clone)]
pub struct DisplayedDivider {
    pub color: Option<String>,
    pub background_color: Option<String>,
    pub name: Option<String>,
}

/// A numbered marker at a point in time.
#[derive(Debug, Clone)]
pub struct DisplayedMarker {
    pub color: Option<String>,
    pub background_color: Option<String>,
    pub name: Option<String>,
    pub idx: u8,
}

/// The name shown for a marker: its own, or the default one.
pub open spec fn shown_marker_name(m: DisplayedMarker) -> Seq<char> {
    match m.name {
        Some(n) => n@,
        None => DEFAULT_MARKER_NAME@,
    }
}

impl DisplayedMarker {
    /// The name shown for the marker.
    pub fn marker_name(&self) -> (res: String)
        ensures
            res@ == shown_marker_name(*self),
    {
        match &self.name {
            Some(n) => n.clone(),
            None => DEFAULT_MARKER_NAME.to_owned(),
        }
    }
}

/// A time line showing the time at each point of the view.
#[derive(Debug, Clone)]
pub struct DisplayedTimeLine {
    pub color: Option<String>,
    pub background_color: Option<String>,
    pub name: Option<String>,
}

/// A transaction stream, or one of its generators.
#[derive(Debug, Clone)]
pub struct DisplayedStream {
    pub transaction_stream_ref: TransactionStreamRef,
    pub color: Option<String>,
    pub background_color: Option<String>,
    pub display_name: String,
    pub manual_name: Option<String>,
    pub rows: usize,
}

/// A named group of items that can be opened and closed.
#[derive(Debug, Clone)]
pub struct DisplayedGroup {
    pub name: String,
    pub color: Option<String>,
    pub background_color: Option<String>,
    pub content: Vec<DisplayedItemRef>,
    pub is_open: bool,
}

} // verus!
