//! Responsive grid planning: which items show at a width and device, and
//! how many of the twelve columns each spans.

use vstd::prelude::*;
use crate::text::{lower_of, trim_of, lowercase, trim};

verus! {

/// The number of columns of the grid.
pub const GRID_COLUMNS: i64 = 12;

/// How one grid item responds to the width and the device.
#[derive(Debug)]
pub struct GridItemSpec {
    pub index: usize,
    /// The span where nothing more specific applies.
    pub span: Option<i64>,
    /// Pairs of a minimum width and the span from that width on.
    pub span_breakpoints: Option<Vec<(i64, i64)>>,
    /// Pairs of a device name and the span on that device.
    pub span_devices: Option<Vec<(String, i64)>>,
    /// Where given, the item shows on these devices only.
    pub visible_devices: Option<Vec<String>>,
    /// Where given (and no visible list is), the item hides on these devices.
    pub hidden_devices: Option<Vec<String>>,
    pub min_width: Option<i64>,
    pub max_width: Option<i64>,
    pub has_responsive_style: Option<bool>,
}

/// One visible item of a plan: its index, its span, and its style flag.
#[derive(Debug, Clone, Copy, PartialEq, Eq, Structural)]
pub struct PlannedItem {
    pub index: usize,
    pub col: i64,
    pub has_responsive_style: bool,
}

/// Why a plan was refused.
#[derive(Debug, Clone, Copy, PartialEq, Eq, Structural)]
pub enum GridError {
    NegativeWidth,
}

/// A span brought into `1..=12`.
pub open spec fn clamp_span(v: int) -> int {
    if v < 1 {
        1
    } else if v > GRID_COLUMNS {
        GRID_COLUMNS as int
    } else {
        v
    }
}

/// Brings a span into `1..=12`.
pub fn sanitize_span(value: i64) -> (r: i64)
    ensures
        r as int == clamp_span(value as int),
{
    if value < 1 {
        1
    } else if value > GRID_COLUMNS {
        GRID_COLUMNS
    } else {
        value
    }
}

/// The span given for the first pair at or after `i` named `device`.
pub open spec fn device_span_from(pairs: Seq<(String, i64)>, device: Seq<char>, i: int) -> Option<i64>
    decreases pairs.len() - i,
{
    if i < 0 || i >= pairs.len() {
        None
    } else if pairs[i].0@ == device {
        Some(pairs[i].1)
    } else {
        device_span_from(pairs, device, i + 1)
    }
}

/// Pair `i` has the largest breakpoint not above `width` (the first such pair
/// where several share it).
pub open spec fn best_breakpoint(pairs: Seq<(i64, i64)>, width: int, i: int) -> bool {
    &&& 0 <= i < pairs.len()
    &&& pairs[i].0 <= width
    &&& forall|j: int| 0 <= j < pairs.len() && pairs[j].0 <= width ==> pairs[j].0 <= pairs[i].0
    &&& forall|j: int| 0 <= j < i && pairs[j].0 <= width ==> pairs[j].0 < pairs[i].0
}

/// The raw span that applies before clamping, where one is given: the device
/// entry for the lower-cased device, else the entry of the largest breakpoint
/// not above the width, else the item's own span.
pub open spec fn given_span(item: GridItemSpec, width: int, device: Seq<char>) -> Option<i64> {
    let by_device = match item.span_devices {
        Some(d) => device_span_from(d@, lower_of(device), 0),
        None => None,
    };
    if by_device is Some {
        by_device
    } else if item.span_breakpoints is Some && exists|i: int|
        #[trigger] best_breakpoint(item.span_breakpoints->0@, width, i) {
        let i = choose|i: int| #[trigger] best_breakpoint(item.span_breakpoints->0@, width, i);
        Some(item.span_breakpoints->0@[i].1)
    } else {
        item.span
    }
}

/// The span of an item: the given span clamped, or an even share of the twelve
/// columns among `columns` (at least one) columns.
pub open spec fn span_of(item: GridItemSpec, width: int, columns: int, device: Seq<char>) -> int {
    match given_span(item, width, device) {
        Some(s) => clamp_span(s as int),
        None => clamp_span((GRID_COLUMNS as int) / (if columns <= 0 { 1 } else { columns })),
    }
}

fn device_span(pairs: &Vec<(String, i64)>, device: &String) -> (r: Option<i64>)
    ensures
        r == device_span_from(pairs@, device@, 0),
{
    let mut i: usize = 0;
    while i < pairs.len()
        invariant
            i <= pairs@.len(),
            device_span_from(pairs@, device@, 0) == device_span_from(pairs@, device@, i as int),
        decreases pairs@.len() - i,
    {
        if pairs[i].0 == *device {
            return Some(pairs[i].1);
        }
        i = i + 1;
    }
    None
}

fn breakpoint_span(pairs: &Vec<(i64, i64)>, width: i64) -> (r: Option<i64>)
    ensures
        match r {
            Some(s) => exists|i: int| #[trigger] best_breakpoint(pairs@, width as int, i) && pairs@[i].1 == s,
            None => !exists|i: int| #[trigger] best_breakpoint(pairs@, width as int, i),
        },
        forall|i: int, j: int|
            best_breakpoint(pairs@, width as int, i) && best_breakpoint(pairs@, width as int, j) ==> i == j,
{
    let mut best: Option<usize> = None;
    let mut i: usize = 0;
    while i < pairs.len()
        invariant
            i <= pairs@.len(),
            match best {
                Some(b) => b < i && best_breakpoint(pairs@.subrange(0, i as int), width as int, b as int),
                None => forall|j: int| 0 <= j < i ==> pairs@[j].0 > width,
            },
        decreases pairs@.len() - i,
    {
        if pairs[i].0 <= width {
            match best {
                Some(b) => {
                    if pairs[i].0 > pairs[b].0 {
                        best = Some(i);
                    }
                },
                None => {
                    best = Some(i);
                },
            }
        }
        i = i + 1;
    }
    assert(pairs@.subrange(0, pairs@.len() as int) =~= pairs@);
    assert forall|i: int, j: int|
        best_breakpoint(pairs@, width as int, i) && best_breakpoint(pairs@, width as int, j) implies i == j by {
        if i < j {
            assert(pairs@[i].0 < pairs@[j].0);
        } else if j < i {
            assert(pairs@[j].0 < pairs@[i].0);
        }
    }
    match best {
        Some(b) => {
            assert(best_breakpoint(pairs@, width as int, b as int));
            Some(pairs[b].1)
        },
        None => None,
    }
}

/// The number of columns an item spans at this width on this device.
pub fn resolve_span(item: &GridItemSpec, width: i64, columns: i64, device: &String) -> (r: i64)
    ensures
        r as int == span_of(*item, width as int, columns as int, device@),
{
    let normalized_device = lowercase(device);
    if let Some(span_devices) = &item.span_devices {
        if let Some(raw_span) = device_span(span_devices, &normalized_device) {
            return sanitize_span(raw_span);
        }
    }
    if let Some(breakpoints) = &item.span_breakpoints {
        if let Some(span) = breakpoint_span(breakpoints, width) {
            return sanitize_span(span);
        }
    }
    if let Some(span) = item.span {
        return sanitize_span(span);
    }
    let cols = if columns <= 0 {
        1
    } else {
        columns
    };
    sanitize_span(GRID_COLUMNS / cols)
}

/// A device name as lists compare it: trimmed, then lower-cased.
pub open spec fn device_key(s: Seq<char>) -> Seq<char> {
    lower_of(trim_of(s))
}

/// The device keys of a list, empty ones dropped, in order.
pub open spec fn normalized_names(items: Seq<String>) -> Seq<Seq<char>>
    decreases items.len(),
{
    if items.len() == 0 {
        Seq::empty()
    } else {
        let rest = normalized_names(items.drop_last());
        let k = device_key(items.last()@);
        if k.len() == 0 {
            rest
        } else {
            rest.push(k)
        }
    }
}

/// Trims and lower-cases each device name, dropping those left empty.
pub fn normalize_devices(devices: &Option<Vec<String>>) -> (r: Option<Vec<String>>)
    ensures
        match devices {
            None => r is None,
            Some(items) => r is Some && r->0@.map_values(|s: String| s@) == normalized_names(items@),
        },
{
    match devices {
        None => None,
        Some(items) => {
            let mut out: Vec<String> = Vec::new();
            let mut i: usize = 0;
            while i < items.len()
                invariant
                    i <= items@.len(),
                    out@.map_values(|s: String| s@) == normalized_names(items@.subrange(0, i as int)),
                decreases items@.len() - i,
            {
                let normalized = lowercase(&trim(&items[i]));
                let ghost before = out@;
                if !normalized.as_str().is_empty() {
                    out.push(normalized);
                }
                proof {
                    let s = items@.subrange(0, i + 1);
                    assert(s.drop_last() =~= items@.subrange(0, i as int));
                    if normalized@.len() > 0 {
                        assert(out@.map_values(|s: String| s@) =~= before.map_values(|s: String| s@).push(
                            normalized@,
                        ));
                    }
                }
                i = i + 1;
            }
            assert(items@.subrange(0, items@.len() as int) =~= items@);
            Some(out)
        },
    }
}

/// Whether an item shows at this width on this device: within its width
/// bounds, on its visible list where it has one, else off its hidden list.
pub open spec fn visible(item: GridItemSpec, width: int, device: Seq<char>) -> bool {
    let d = lower_of(device);
    if item.min_width is Some && width < item.min_width->0 {
        false
    } else if item.max_width is Some && width > item.max_width->0 {
        false
    } else if item.visible_devices is Some {
        normalized_names(item.visible_devices->0@).contains(d)
    } else if item.hidden_devices is Some {
        !normalized_names(item.hidden_devices->0@).contains(d)
    } else {
        true
    }
}

fn contains_name(names: &Vec<String>, name: &String) -> (r: bool)
    ensures
        r == names@.map_values(|s: String| s@).contains(name@),
{
    let ghost view = names@.map_values(|s: String| s@);
    let mut i: usize = 0;
    while i < names.len()
        invariant
            i <= names@.len(),
            view == names@.map_values(|s: String| s@),
            forall|j: int| 0 <= j < i ==> view[j] != name@,
        decreases names@.len() - i,
    {
        if names[i] == *name {
            assert(view[i as int] == name@);
            return true;
        }
        i = i + 1;
    }
    false
}

/// Whether an item shows at this width on this device.
pub fn is_visible(item: &GridItemSpec, width: i64, device: &String) -> (r: bool)
    ensures
        r == visible(*item, width as int, device@),
{
    if let Some(min_width) = item.min_width {
        if width < min_width {
            return false;
        }
    }
    if let Some(max_width) = item.max_width {
        if width > max_width {
            return false;
        }
    }
    let normalized_device = lowercase(device);
    if let Some(visible) = normalize_devices(&item.visible_devices) {
        return contains_name(&visible, &normalized_device);
    }
    if let Some(hidden) = normalize_devices(&item.hidden_devices) {
        if contains_name(&hidden, &normalized_device) {
            return false;
        }
    }
    true
}

/// The plan entry of an item.
pub open spec fn planned(item: GridItemSpec, width: int, columns: int, device: Seq<char>) -> PlannedItem {
    PlannedItem {
        index: item.index,
        col: span_of(item, width, columns, device) as i64,
        has_responsive_style: match item.has_responsive_style {
            Some(b) => b,
            None => false,
        },
    }
}

/// The plan entries of the visible items, in order.
pub open spec fn plan_of(items: Seq<GridItemSpec>, width: int, columns: int, device: Seq<char>) -> Seq<PlannedItem>
    decreases items.len(),
{
    if items.len() == 0 {
        Seq::empty()
    } else {
        let rest = plan_of(items.drop_last(), width, columns, device);
        if visible(items.last(), width, device) {
            rest.push(planned(items.last(), width, columns, device))
        } else {
            rest
        }
    }
}

/// Plans the grid: for each visible item in order, its index, its span and
/// its style flag. A negative width is refused.
pub fn plan_items(width: i64, columns: i64, device: &String, items: Vec<GridItemSpec>) -> (r: Result<Vec<PlannedItem>, GridError>)
    ensures
        width < 0 ==> r == Err::<Vec<PlannedItem>, GridError>(GridError::NegativeWidth),
        width >= 0 ==> r is Ok && r->Ok_0@ == plan_of(items@, width as int, columns as int, device@),
{
    if width < 0 {
        return Err(GridError::NegativeWidth);
    }
    let mut result: Vec<PlannedItem> = Vec::new();
    let mut i: usize = 0;
    while i < items.len()
        invariant
            i <= items@.len(),
            result@ == plan_of(items@.subrange(0, i as int), width as int, columns as int, device@),
        decreases items@.len() - i,
    {
        let item = &items[i];
        let ghost before = result@;
        if is_visible(item, width, device) {
            let col = resolve_span(item, width, columns, device);
            let has_responsive_style = match item.has_responsive_style {
                Some(b) => b,
                None => false,
            };
            result.push(PlannedItem { index: item.index, col, has_responsive_style });
        }
        proof {
            let s = items@.subrange(0, i + 1);
            assert(s.drop_last() =~= items@.subrange(0, i as int));
        }
        i = i + 1;
    }
    assert(items@.subrange(0, items@.len() as int) =~= items@);
    Ok(result)
}

} // verus!
