use fletplus::breakpoint::select_breakpoint;
use fletplus::grid::{
    is_visible, normalize_devices, plan_items, resolve_span, sanitize_span, GridError, GridItemSpec, PlannedItem,
};

fn item(index: usize) -> GridItemSpec {
    GridItemSpec {
        index,
        span: None,
        span_breakpoints: None,
        span_devices: None,
        visible_devices: None,
        hidden_devices: None,
        min_width: None,
        max_width: None,
        has_responsive_style: None,
    }
}

fn names(list: &[&str]) -> Option<Vec<String>> {
    Some(list.iter().map(|s| s.to_string()).collect())
}

#[test]
fn breakpoint_picks_largest_key_not_above() {
    assert_eq!(select_breakpoint(vec![0, 600, 900, 1200], 950), Some(900));
    assert_eq!(select_breakpoint(vec![0, 600, 900, 1200], 600), Some(600));
    assert_eq!(select_breakpoint(vec![0, 600, 900, 1200], 5000), Some(1200));
    assert_eq!(select_breakpoint(vec![100, 600], 50), None);
    assert_eq!(select_breakpoint(vec![], 50), None);
}

#[test]
fn span_is_clamped() {
    assert_eq!(sanitize_span(0), 1);
    assert_eq!(sanitize_span(-4), 1);
    assert_eq!(sanitize_span(7), 7);
    assert_eq!(sanitize_span(40), 12);
}

#[test]
fn span_by_device_then_breakpoint_then_own() {
    let mut it = item(0);
    it.span = Some(5);
    it.span_breakpoints = Some(vec![(900, 4), (0, 12), (600, 6)]);
    it.span_devices = Some(vec![("mobile".to_string(), 20)]);
    let device = "Mobile".to_string();
    assert_eq!(resolve_span(&it, 700, 3, &device), 12);
    let desktop = "desktop".to_string();
    assert_eq!(resolve_span(&it, 700, 3, &desktop), 6);
    assert_eq!(resolve_span(&it, 1000, 3, &desktop), 4);
    assert_eq!(resolve_span(&it, 100, 3, &desktop), 12);
    it.span_breakpoints = Some(vec![(900, 4)]);
    assert_eq!(resolve_span(&it, 100, 3, &desktop), 5);
}

#[test]
fn default_span_shares_twelve_columns() {
    let it = item(0);
    let d = "web".to_string();
    assert_eq!(resolve_span(&it, 100, 3, &d), 4);
    assert_eq!(resolve_span(&it, 100, 5, &d), 2);
    assert_eq!(resolve_span(&it, 100, 0, &d), 12);
    assert_eq!(resolve_span(&it, 100, -2, &d), 12);
    assert_eq!(resolve_span(&it, 100, 24, &d), 1);
}

#[test]
fn device_lists_are_trimmed_and_lowered() {
    let out = normalize_devices(&names(&["  Mobile ", "", "   ", "TABLET"])).unwrap();
    assert_eq!(out, vec!["mobile".to_string(), "tablet".to_string()]);
    assert_eq!(normalize_devices(&None), None);
}

#[test]
fn visibility_rules() {
    let mut it = item(0);
    it.min_width = Some(300);
    it.max_width = Some(800);
    let d = "web".to_string();
    assert!(!is_visible(&it, 200, &d));
    assert!(!is_visible(&it, 900, &d));
    assert!(is_visible(&it, 500, &d));
    it.visible_devices = names(&[" Mobile"]);
    it.hidden_devices = names(&["MOBILE"]);
    assert!(is_visible(&it, 500, &"mobile".to_string()));
    assert!(!is_visible(&it, 500, &d));
    it.visible_devices = None;
    assert!(!is_visible(&it, 500, &"Mobile".to_string()));
    assert!(is_visible(&it, 500, &d));
}

#[test]
fn plan_lists_visible_items_in_order() {
    let mut a = item(0);
    a.span = Some(6);
    a.has_responsive_style = Some(true);
    let mut b = item(1);
    b.min_width = Some(1000);
    let c = item(2);
    let plan = plan_items(500, 4, &"web".to_string(), vec![a, b, c]).unwrap();
    assert_eq!(
        plan,
        vec![
            PlannedItem { index: 0, col: 6, has_responsive_style: true },
            PlannedItem { index: 2, col: 3, has_responsive_style: false },
        ]
    );
}

#[test]
fn plan_refuses_negative_width() {
    assert_eq!(plan_items(-1, 4, &"web".to_string(), vec![item(0)]), Err(GridError::NegativeWidth));
}
