//! Typed measurement answers and their validated scalar values.
//!
//! Scalar measurements are logical lengths: an answer is admitted only when it
//! is non-negative (or positive, where stated) and fits the logical range.

use vstd::prelude::*;

verus! {

/// Why an adapter could not answer one exact measurement question.
#[derive(Debug, Clone, Copy, PartialEq, Eq, Structural, Hash)]
pub enum MeasurementUnavailableReason {
    /// The adapter does not support this question.
    Unsupported,
    /// The surface has no measurable host.
    SurfaceUnavailable,
    /// The pane content could not be measured.
    ContentUnavailable,
    /// Text metrics are not available yet.
    TextMetricsUnavailable,
    /// The adapter deferred the answer to a later frame.
    Deferred,
}

/// One exact answer: a measured value or a typed reason why none exists.
#[derive(Debug, Clone, Copy, PartialEq, Eq)]
pub enum Measurement<T> {
    /// The adapter measured a value.
    Measured(T),
    /// The adapter could not measure a value.
    Unavailable(MeasurementUnavailableReason),
}

impl<T> Measurement<T> {
    /// Returns the measured value, when present.
    pub fn measured(&self) -> (r: Option<&T>)
        ensures
            r is Some <==> self is Measured,
            r matches Some(v) ==> *self == Measurement::<T>::Measured(*v),
    {
        match self {
            Measurement::Measured(value) => Some(value),
            Measurement::Unavailable(_) => None,
        }
    }

    /// Returns the reason no value exists, when the answer is unavailable.
    pub fn unavailable_reason(&self) -> (r: Option<MeasurementUnavailableReason>)
        ensures
            r is Some <==> self is Unavailable,
            r matches Some(reason) ==> *self == Measurement::<T>::Unavailable(reason),
    {
        match self {
            Measurement::Measured(_) => None,
            Measurement::Unavailable(reason) => Some(*reason),
        }
    }
}

/// A scalar measurement outside its admitted range.
#[derive(Debug, Clone, Copy, PartialEq, Eq)]
pub enum MeasurementValueError {
    /// The value was negative.
    Negative {
        /// Rejected field.
        field: &'static str,
        /// Rejected value.
        value: i64,
    },
    /// The value had to be positive.
    NonPositive {
        /// Rejected field.
        field: &'static str,
        /// Rejected value.
        value: i64,
    },
    /// The value exceeds the logical coordinate range.
    OutOfRange {
        /// Rejected field.
        field: &'static str,
        /// Rejected value.
        value: i64,
    },
}

/// The rejection of a value that must be a non-negative logical length.
pub open spec fn non_negative_error(field: &'static str, value: i64) -> Option<
    MeasurementValueError,
> {
    if value < 0 {
        Some(MeasurementValueError::Negative { field, value })
    } else if value > u32::MAX {
        Some(MeasurementValueError::OutOfRange { field, value })
    } else {
        None
    }
}

/// The rejection of a value that must be a positive logical length.
pub open spec fn positive_error(field: &'static str, value: i64) -> Option<MeasurementValueError> {
    if value <= 0 {
        Some(MeasurementValueError::NonPositive { field, value })
    } else if value > u32::MAX {
        Some(MeasurementValueError::OutOfRange { field, value })
    } else {
        None
    }
}

fn validate_non_negative(field: &'static str, value: i64) -> (r: Result<u32, MeasurementValueError>)
    ensures
        non_negative_error(field, value) matches Some(e) ==> r == Err::<u32, _>(e),
        non_negative_error(field, value) is None ==> r == Ok::<u32, MeasurementValueError>(
            value as u32,
        ),
{
    if value < 0 {
        return Err(MeasurementValueError::Negative { field, value });
    }
    if value > u32::MAX as i64 {
        return Err(MeasurementValueError::OutOfRange { field, value });
    }
    Ok(value as u32)
}

fn validate_positive(field: &'static str, value: i64) -> (r: Result<u32, MeasurementValueError>)
    ensures
        positive_error(field, value) matches Some(e) ==> r == Err::<u32, _>(e),
        positive_error(field, value) is None ==> r == Ok::<u32, MeasurementValueError>(
            value as u32,
        ),
{
    if value <= 0 {
        return Err(MeasurementValueError::NonPositive { field, value });
    }
    if value > u32::MAX as i64 {
        return Err(MeasurementValueError::OutOfRange { field, value });
    }
    Ok(value as u32)
}

/// Renderer-measured intrinsic content width of one tab.
#[derive(Debug, Clone, Copy, PartialEq, Eq, Structural)]
pub struct TabIntrinsic {
    content_width: u32,
}

impl TabIntrinsic {
    /// Exact width behind [`Self::content_width`].
    pub closed spec fn spec_content_width(self) -> u32 {
        self.content_width
    }

    /// Creates one intrinsic measurement from a non-negative width.
    pub fn new(content_width: i64) -> (r: Result<Self, MeasurementValueError>)
        ensures
            non_negative_error("tab content width", content_width) matches Some(e) ==> r == Err::<
                Self,
                _,
            >(e),
            non_negative_error("tab content width", content_width) is None ==> (r matches Ok(t)
                && t.content_width() == content_width),
    {
        let width = validate_non_negative("tab content width", content_width)?;
        Ok(TabIntrinsic { content_width: width })
    }

    /// Returns the intrinsic content width.
    #[verifier::when_used_as_spec(spec_content_width)]
    pub fn content_width(self) -> (r: u32)
        ensures
            r == self.spec_content_width(),
    {
        self.content_width
    }
}

/// Where one tab-strip control is placed relative to the tab viewport.
#[derive(Debug, Clone, Copy, PartialEq, Eq, Structural, Hash)]
pub enum TabStripControlPlacement {
    /// The control reserves space before the viewport.
    ReservedLeading,
    /// The control reserves space after the viewport.
    ReservedTrailing,
    /// The control overlays the leading edge of the viewport.
    OverlayLeading,
    /// The control overlays the trailing edge of the viewport.
    OverlayTrailing,
}

/// Measured extent and placement of one tab-strip control.
#[derive(Debug, Clone, Copy, PartialEq, Eq, Structural)]
pub struct TabStripControlMetric {
    extent: u32,
    placement: TabStripControlPlacement,
}

impl TabStripControlMetric {
    /// Exact extent behind [`Self::extent`].
    pub closed spec fn spec_extent(self) -> u32 {
        self.extent
    }

    /// Exact placement behind [`Self::placement`].
    pub closed spec fn spec_placement(self) -> TabStripControlPlacement {
        self.placement
    }

    /// Creates one control metric from a positive extent.
    pub fn new(extent: i64, placement: TabStripControlPlacement) -> (r: Result<
        Self,
        MeasurementValueError,
    >)
        ensures
            positive_error("tab-strip control extent", extent) matches Some(e) ==> r == Err::<
                Self,
                _,
            >(e),
            positive_error("tab-strip control extent", extent) is None ==> (r matches Ok(m)
                && m.extent() == extent && m.placement() == placement),
    {
        let extent = validate_positive("tab-strip control extent", extent)?;
        Ok(TabStripControlMetric { extent, placement })
    }

    /// Returns the control extent.
    #[verifier::when_used_as_spec(spec_extent)]
    pub fn extent(self) -> (r: u32)
        ensures
            r == self.spec_extent(),
    {
        self.extent
    }

    /// Returns the control placement.
    #[verifier::when_used_as_spec(spec_placement)]
    pub fn placement(self) -> (r: TabStripControlPlacement)
        ensures
            r == self.spec_placement(),
    {
        self.placement
    }

    /// Returns whether the control can be allocated.
    pub fn can_allocate(self) -> (r: bool)
        ensures
            r == (self.extent() > 0),
    {
        self.extent > 0
    }
}

/// Measured tab-strip controls and the spacing between them.
#[derive(Debug, Clone, Copy, PartialEq, Eq, Structural)]
pub struct TabStripControlMetrics {
    scroll_backward: Option<TabStripControlMetric>,
    scroll_forward: Option<TabStripControlMetric>,
    tab_list_menu: Option<TabStripControlMetric>,
    spacing: u32,
}

impl TabStripControlMetrics {
    /// Exact metric behind [`Self::scroll_backward`].
    pub closed spec fn spec_scroll_backward(self) -> Option<TabStripControlMetric> {
        self.scroll_backward
    }

    /// Exact metric behind [`Self::scroll_forward`].
    pub closed spec fn spec_scroll_forward(self) -> Option<TabStripControlMetric> {
        self.scroll_forward
    }

    /// Exact metric behind [`Self::tab_list_menu`].
    pub closed spec fn spec_tab_list_menu(self) -> Option<TabStripControlMetric> {
        self.tab_list_menu
    }

    /// Exact spacing behind [`Self::spacing`].
    pub closed spec fn spec_spacing(self) -> u32 {
        self.spacing
    }

    /// Creates control metrics with no controls and a non-negative spacing.
    pub fn new(spacing: i64) -> (r: Result<Self, MeasurementValueError>)
        ensures
            non_negative_error("tab-strip control spacing", spacing) matches Some(e) ==> r
                == Err::<Self, _>(e),
            non_negative_error("tab-strip control spacing", spacing) is None ==> (r matches Ok(m)
                && m.spacing() == spacing && m.scroll_backward() is None && m.scroll_forward() is None
                && m.tab_list_menu() is None),
    {
        let spacing = validate_non_negative("tab-strip control spacing", spacing)?;
        Ok(TabStripControlMetrics {
            scroll_backward: None,
            scroll_forward: None,
            tab_list_menu: None,
            spacing,
        })
    }

    /// Adds the scroll-backward control.
    pub fn with_scroll_backward(self, metric: TabStripControlMetric) -> (r: Self)
        ensures
            r.scroll_backward() == Some(metric),
            r.scroll_forward() == self.scroll_forward(),
            r.tab_list_menu() == self.tab_list_menu(),
            r.spacing() == self.spacing(),
    {
        TabStripControlMetrics { scroll_backward: Some(metric), ..self }
    }

    /// Adds the scroll-forward control.
    pub fn with_scroll_forward(self, metric: TabStripControlMetric) -> (r: Self)
        ensures
            r.scroll_forward() == Some(metric),
            r.scroll_backward() == self.scroll_backward(),
            r.tab_list_menu() == self.tab_list_menu(),
            r.spacing() == self.spacing(),
    {
        TabStripControlMetrics { scroll_forward: Some(metric), ..self }
    }

    /// Adds the tab-list menu control.
    pub fn with_tab_list_menu(self, metric: TabStripControlMetric) -> (r: Self)
        ensures
            r.tab_list_menu() == Some(metric),
            r.scroll_backward() == self.scroll_backward(),
            r.scroll_forward() == self.scroll_forward(),
            r.spacing() == self.spacing(),
    {
        TabStripControlMetrics { tab_list_menu: Some(metric), ..self }
    }

    /// Returns the scroll-backward control, when measured.
    #[verifier::when_used_as_spec(spec_scroll_backward)]
    pub fn scroll_backward(self) -> (r: Option<TabStripControlMetric>)
        ensures
            r == self.spec_scroll_backward(),
    {
        self.scroll_backward
    }

    /// Returns the scroll-forward control, when measured.
    #[verifier::when_used_as_spec(spec_scroll_forward)]
    pub fn scroll_forward(self) -> (r: Option<TabStripControlMetric>)
        ensures
            r == self.spec_scroll_forward(),
    {
        self.scroll_forward
    }

    /// Returns the tab-list menu control, when measured.
    #[verifier::when_used_as_spec(spec_tab_list_menu)]
    pub fn tab_list_menu(self) -> (r: Option<TabStripControlMetric>)
        ensures
            r == self.spec_tab_list_menu(),
    {
        self.tab_list_menu
    }

    /// Returns the spacing between controls.
    #[verifier::when_used_as_spec(spec_spacing)]
    pub fn spacing(self) -> (r: u32)
        ensures
            r == self.spec_spacing(),
    {
        self.spacing
    }

    /// Returns whether no control was measured.
    pub fn is_empty(self) -> (r: bool)
        ensures
            r == (self.scroll_backward() is None && self.scroll_forward() is None
                && self.tab_list_menu() is None),
    {
        self.scroll_backward.is_none() && self.scroll_forward.is_none()
            && self.tab_list_menu.is_none()
    }
}

/// Measured tab-list menu layout metrics.
#[derive(Debug, Clone, Copy, PartialEq, Eq, Structural)]
pub struct TabListMenuMetrics {
    /// Height of one row.
    pub row_height: u32,
    /// Horizontal padding around rows.
    pub horizontal_padding: u32,
    /// Vertical padding around rows.
    pub vertical_padding: u32,
    /// Spacing between rows.
    pub row_spacing: u32,
    /// Largest admitted menu height.
    pub maximum_height: u32,
    /// Extent of the menu scrollbar.
    pub scrollbar_extent: u32,
}

/// The first rejected tab-list metric, checked in declaration order.
pub open spec fn menu_metrics_error(
    row_height: i64,
    horizontal_padding: i64,
    vertical_padding: i64,
    row_spacing: i64,
    maximum_height: i64,
    scrollbar_extent: i64,
) -> Option<MeasurementValueError> {
    if non_negative_error("tab-list row height", row_height) is Some {
        non_negative_error("tab-list row height", row_height)
    } else if non_negative_error("tab-list horizontal padding", horizontal_padding) is Some {
        non_negative_error("tab-list horizontal padding", horizontal_padding)
    } else if non_negative_error("tab-list vertical padding", vertical_padding) is Some {
        non_negative_error("tab-list vertical padding", vertical_padding)
    } else if non_negative_error("tab-list row spacing", row_spacing) is Some {
        non_negative_error("tab-list row spacing", row_spacing)
    } else if non_negative_error("tab-list maximum height", maximum_height) is Some {
        non_negative_error("tab-list maximum height", maximum_height)
    } else {
        non_negative_error("tab-list scrollbar extent", scrollbar_extent)
    }
}

impl TabListMenuMetrics {
    /// Creates menu metrics, rejecting the first out-of-range field.
    pub fn new(
        row_height: i64,
        horizontal_padding: i64,
        vertical_padding: i64,
        row_spacing: i64,
        maximum_height: i64,
        scrollbar_extent: i64,
    ) -> (r: Result<Self, MeasurementValueError>)
        ensures
            menu_metrics_error(
                row_height,
                horizontal_padding,
                vertical_padding,
                row_spacing,
                maximum_height,
                scrollbar_extent,
            ) matches Some(e) ==> r == Err::<Self, _>(e),
            menu_metrics_error(
                row_height,
                horizontal_padding,
                vertical_padding,
                row_spacing,
                maximum_height,
                scrollbar_extent,
            ) is None ==> (r matches Ok(m) && m.row_height == row_height && m.horizontal_padding
                == horizontal_padding && m.vertical_padding == vertical_padding && m.row_spacing
                == row_spacing && m.maximum_height == maximum_height && m.scrollbar_extent
                == scrollbar_extent),
    {
        let row_height = validate_non_negative("tab-list row height", row_height)?;
        let horizontal_padding = validate_non_negative(
            "tab-list horizontal padding",
            horizontal_padding,
        )?;
        let vertical_padding = validate_non_negative("tab-list vertical padding", vertical_padding)?;
        let row_spacing = validate_non_negative("tab-list row spacing", row_spacing)?;
        let maximum_height = validate_non_negative("tab-list maximum height", maximum_height)?;
        let scrollbar_extent = validate_non_negative("tab-list scrollbar extent", scrollbar_extent)?;
        Ok(TabListMenuMetrics {
            row_height,
            horizontal_padding,
            vertical_padding,
            row_spacing,
            maximum_height,
            scrollbar_extent,
        })
    }

    /// Returns the row height.
    pub fn row_height(self) -> (r: u32)
        ensures
            r == self.row_height,
    {
        self.row_height
    }

    /// Returns the horizontal padding.
    pub fn horizontal_padding(self) -> (r: u32)
        ensures
            r == self.horizontal_padding,
    {
        self.horizontal_padding
    }

    /// Returns the vertical padding.
    pub fn vertical_padding(self) -> (r: u32)
        ensures
            r == self.vertical_padding,
    {
        self.vertical_padding
    }

    /// Returns the row spacing.
    pub fn row_spacing(self) -> (r: u32)
        ensures
            r == self.row_spacing,
    {
        self.row_spacing
    }

    /// Returns the maximum menu height.
    pub fn maximum_height(self) -> (r: u32)
        ensures
            r == self.maximum_height,
    {
        self.maximum_height
    }

    /// Returns the scrollbar extent.
    pub fn scrollbar_extent(self) -> (r: u32)
        ensures
            r == self.scrollbar_extent,
    {
        self.scrollbar_extent
    }

    /// Returns whether a menu with these metrics can be allocated.
    pub fn can_allocate(self) -> (r: bool)
        ensures
            r == (self.row_height > 0 && self.maximum_height > 0),
    {
        self.row_height > 0 && self.maximum_height > 0
    }
}

/// Measured leading and trailing reservations of one tab strip.
#[derive(Debug, Clone, Copy, PartialEq, Eq, Structural)]
pub struct TabStripMetrics {
    leading_reserved: u32,
    trailing_reserved: u32,
    controls: Option<TabStripControlMetrics>,
    tab_list_menu: Option<TabListMenuMetrics>,
    scroll_offset: Option<u32>,
}

impl TabStripMetrics {
    /// Exact reservation behind [`Self::leading_reserved`].
    pub closed spec fn spec_leading_reserved(self) -> u32 {
        self.leading_reserved
    }

    /// Exact reservation behind [`Self::trailing_reserved`].
    pub closed spec fn spec_trailing_reserved(self) -> u32 {
        self.trailing_reserved
    }

    /// Exact controls behind [`Self::controls`].
    pub closed spec fn spec_controls(self) -> Option<TabStripControlMetrics> {
        self.controls
    }

    /// Exact menu metrics behind [`Self::tab_list_menu`].
    pub closed spec fn spec_tab_list_menu(self) -> Option<TabListMenuMetrics> {
        self.tab_list_menu
    }

    /// Exact legacy scroll offset behind [`Self::scroll_offset`].
    pub closed spec fn spec_scroll_offset(self) -> Option<u32> {
        self.scroll_offset
    }

    /// Creates strip metrics from non-negative reservations.
    pub fn new(leading_reserved: i64, trailing_reserved: i64) -> (r: Result<
        Self,
        MeasurementValueError,
    >)
        ensures
            non_negative_error("tab strip leading reservation", leading_reserved) matches Some(e)
                ==> r == Err::<Self, _>(e),
            non_negative_error("tab strip leading reservation", leading_reserved) is None ==> (
            non_negative_error("tab strip trailing reservation", trailing_reserved) matches Some(e)
                ==> r == Err::<Self, _>(e)),
            non_negative_error("tab strip leading reservation", leading_reserved) is None
                && non_negative_error("tab strip trailing reservation", trailing_reserved) is None
                ==> (r matches Ok(m) && m.leading_reserved() == leading_reserved
                && m.trailing_reserved() == trailing_reserved && m.controls() is None
                && m.tab_list_menu() is None && m.scroll_offset() is None),
    {
        let leading = validate_non_negative("tab strip leading reservation", leading_reserved)?;
        let trailing = validate_non_negative("tab strip trailing reservation", trailing_reserved)?;
        Ok(TabStripMetrics {
            leading_reserved: leading,
            trailing_reserved: trailing,
            controls: None,
            tab_list_menu: None,
            scroll_offset: None,
        })
    }

    /// Attaches measured controls.
    pub fn with_controls(self, metrics: TabStripControlMetrics) -> (r: Self)
        ensures
            r.controls() == Some(metrics),
            r.leading_reserved() == self.leading_reserved(),
            r.trailing_reserved() == self.trailing_reserved(),
            r.tab_list_menu() == self.tab_list_menu(),
            r.scroll_offset() == self.scroll_offset(),
    {
        TabStripMetrics { controls: Some(metrics), ..self }
    }

    /// Attaches measured menu metrics.
    pub fn with_tab_list_menu(self, metrics: TabListMenuMetrics) -> (r: Self)
        ensures
            r.tab_list_menu() == Some(metrics),
            r.leading_reserved() == self.leading_reserved(),
            r.trailing_reserved() == self.trailing_reserved(),
            r.controls() == self.controls(),
            r.scroll_offset() == self.scroll_offset(),
    {
        TabStripMetrics { tab_list_menu: Some(metrics), ..self }
    }

    /// Attaches an adapter-observed scroll offset; scene compilation ignores it.
    pub fn with_scroll_offset(self, scroll_offset: i64) -> (r: Result<Self, MeasurementValueError>)
        ensures
            non_negative_error("tab strip scroll offset", scroll_offset) matches Some(e) ==> r
                == Err::<Self, _>(e),
            non_negative_error("tab strip scroll offset", scroll_offset) is None ==> (r matches Ok(m)
                && m.scroll_offset() == Some(scroll_offset as u32) && m.leading_reserved()
                == self.leading_reserved() && m.trailing_reserved() == self.trailing_reserved()
                && m.controls() == self.controls() && m.tab_list_menu() == self.tab_list_menu()),
    {
        let offset = validate_non_negative("tab strip scroll offset", scroll_offset)?;
        Ok(TabStripMetrics { scroll_offset: Some(offset), ..self })
    }

    /// Returns the metrics without the adapter-observed scroll offset.
    pub fn without_legacy_scroll_offset(self) -> (r: Self)
        ensures
            r.scroll_offset() is None,
            r.leading_reserved() == self.leading_reserved(),
            r.trailing_reserved() == self.trailing_reserved(),
            r.controls() == self.controls(),
            r.tab_list_menu() == self.tab_list_menu(),
    {
        TabStripMetrics { scroll_offset: None, ..self }
    }

    /// Returns the leading reservation.
    #[verifier::when_used_as_spec(spec_leading_reserved)]
    pub fn leading_reserved(self) -> (r: u32)
        ensures
            r == self.spec_leading_reserved(),
    {
        self.leading_reserved
    }

    /// Returns the trailing reservation.
    #[verifier::when_used_as_spec(spec_trailing_reserved)]
    pub fn trailing_reserved(self) -> (r: u32)
        ensures
            r == self.spec_trailing_reserved(),
    {
        self.trailing_reserved
    }

    /// Returns the adapter-observed scroll offset, when submitted.
    #[verifier::when_used_as_spec(spec_scroll_offset)]
    pub fn scroll_offset(self) -> (r: Option<u32>)
        ensures
            r == self.spec_scroll_offset(),
    {
        self.scroll_offset
    }

    /// Returns the menu metrics, when measured.
    #[verifier::when_used_as_spec(spec_tab_list_menu)]
    pub fn tab_list_menu(self) -> (r: Option<TabListMenuMetrics>)
        ensures
            r == self.spec_tab_list_menu(),
    {
        self.tab_list_menu
    }

    /// Returns the control metrics, when measured.
    #[verifier::when_used_as_spec(spec_controls)]
    pub fn controls(self) -> (r: Option<TabStripControlMetrics>)
        ensures
            r == self.spec_controls(),
    {
        self.controls
    }
}

} // verus!
