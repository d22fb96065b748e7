//! Web views and the tab collection.

use muskitty::navigation::{NavigationDoc, NavigationOutcome};
use muskitty::webview::{
    apply_navigation_outcome, finish_file_navigation, reload_source_tab, start_navigation,
    NavigationAction, WebView, WebViewCollection,
};

const HTML_A: &str = "<html>A</html>";
const CSS: &str = "";
const HTML_B: &str = "<html>B</html>";

#[test]
fn new_starts_with_one_active_view() {
    let c = WebViewCollection::new(HTML_A, CSS);
    assert_eq!(c.len(), 1);
    assert_eq!(c.active_index(), 0);
    assert_eq!(c.active().html, HTML_A);
    assert!(c.active().needs_repaint());
    assert!(!c.active().close_scheduled());
}

#[test]
fn new_tab_activates_new_view() {
    let mut c = WebViewCollection::new(HTML_A, CSS);
    c.new_tab(HTML_B, CSS);
    assert_eq!(c.len(), 2);
    assert_eq!(c.active_index(), 1);
    assert_eq!(c.active().html, HTML_B);
    assert!(c.active().needs_repaint());
}

#[test]
fn close_then_flush_removes_active_and_selects_neighbor() {
    let mut c = WebViewCollection::new(HTML_A, CSS);
    c.new_tab(HTML_B, CSS);
    c.new_tab(HTML_A, CSS);
    c.close_active();
    assert!(c.active().close_scheduled());
    assert_eq!(c.len(), 3);
    assert_eq!(c.flush_close(), 1);
    assert_eq!(c.len(), 2);
    assert_eq!(c.active_index(), 1);
    assert!(c.active().needs_repaint());
}

#[test]
fn flush_close_only_removes_marked_views() {
    let mut c = WebViewCollection::new(HTML_A, CSS);
    c.new_tab(HTML_B, CSS);
    c.select(0);
    c.close_active();
    c.flush_close();
    assert_eq!(c.len(), 1);
    assert_eq!(c.active_index(), 0);
    assert_eq!(c.active().html, HTML_B);
}

#[test]
fn flush_close_all_leaves_empty() {
    let mut c = WebViewCollection::new(HTML_A, CSS);
    c.close_active();
    assert_eq!(c.flush_close(), 1);
    assert!(c.is_empty());
    assert_eq!(c.active_index(), 0);
}

#[test]
fn select_next_prev_wrap_and_mark_dirty() {
    let mut c = WebViewCollection::new(HTML_A, CSS);
    c.new_tab(HTML_B, CSS);
    c.select(0);
    c.select_next();
    assert_eq!(c.active_index(), 1);
    assert!(c.active().needs_repaint());
    c.select_next();
    assert_eq!(c.active_index(), 0);
    c.select_prev();
    assert_eq!(c.active_index(), 1);
}

#[test]
fn select_out_of_range_is_ignored() {
    let mut c = WebViewCollection::new(HTML_A, CSS);
    c.select(5);
    assert_eq!(c.active_index(), 0);
    c.select(1);
    assert_eq!(c.active_index(), 0);
}

#[test]
fn select_same_index_does_not_dirty() {
    let mut c = WebViewCollection::new(HTML_A, CSS);
    c.active_mut().mark_needs_repaint();
    c.active_mut()
        .store_render(vec![0; 4], 1, 1, 1, 1, 1.0f32.to_bits());
    assert!(!c.active().needs_repaint());
    c.select(0);
    assert!(!c.active().needs_repaint(), "same index must not dirty");
}

#[test]
fn single_view_select_next_noop() {
    let mut c = WebViewCollection::new(HTML_A, CSS);
    c.select_next();
    c.select_prev();
    assert_eq!(c.active_index(), 0);
}

#[test]
fn get_mut_updates_by_index_without_touching_active() {
    let mut c = WebViewCollection::new(HTML_A, CSS);
    c.new_tab(HTML_B, CSS);
    let v = c.get_mut(0).expect("index 0");
    v.html = String::from("<html>C</html>");
    assert_eq!(c.active_index(), 1, "get_mut must not change active");
    assert_eq!(c.active().html, HTML_B);
    assert!(c.get_mut(5).is_none(), "out of range must be None");
}

#[test]
fn webview_render_state_roundtrip() {
    let mut v = WebView::new(HTML_A, CSS);
    assert!(v.needs_repaint());
    v.store_render(vec![1, 2, 3, 4], 1, 1, 100, 50, 2.0f32.to_bits());
    assert!(!v.needs_repaint());
    assert_eq!(v.layout_state(), (100, 50, 2.0f32.to_bits()));
    let (px, w, h) = v.frame();
    assert_eq!((w, h, px), (1, 1, &[1u8, 2, 3, 4][..]));
    v.mark_needs_repaint();
    assert!(v.needs_repaint());
}

// ---- navigation results (the window layer's result handling) ----

#[test]
fn navigation_result_applies_to_tab_and_stale_dropped() {
    let mut views = WebViewCollection::new("<html>old</html>", "");
    views.active_mut().navigation_epoch = 1;
    let outcome = NavigationOutcome {
        tab: 0,
        epoch: 1,
        url: "https://example.com".to_string(),
        result: Ok(NavigationDoc {
            final_url: "https://example.com/".to_string(),
            html: "<html>new</html>".to_string(),
            css: "p{color:red}".to_string(),
        }),
    };
    views.active_mut().store_render(Vec::new(), 0, 0, 0, 0, 1.0f32.to_bits());
    assert!(apply_navigation_outcome(&mut views, outcome));
    assert_eq!(views.active().html, "<html>new</html>");
    assert_eq!(views.active().css, "p{color:red}");
    assert_eq!(views.active().title, "https://example.com/");
    assert!(views.active().needs_repaint());

    let stale = NavigationOutcome {
        tab: 0,
        epoch: 99,
        url: "https://stale.example".to_string(),
        result: Ok(NavigationDoc {
            final_url: "https://stale.example/".to_string(),
            html: "<html>stale</html>".to_string(),
            css: String::new(),
        }),
    };
    assert!(!apply_navigation_outcome(&mut views, stale));
    assert_eq!(views.active().html, "<html>new</html>");
}

#[test]
fn navigation_error_result_renders_error_page() {
    let mut views = WebViewCollection::new("<html>old</html>", "");
    views.active_mut().navigation_epoch = 3;
    let outcome = NavigationOutcome {
        tab: 0,
        epoch: 3,
        url: "https://down.example".to_string(),
        result: Err("connection refused".to_string()),
    };
    assert!(apply_navigation_outcome(&mut views, outcome));
    assert!(views.active().html.contains("Navigation failed"));
    assert!(views.active().html.contains("connection refused"));
    assert!(views.active().css.is_empty());
    assert_eq!(views.active().title, "https://down.example");
}

#[test]
fn navigation_result_for_closed_tab_is_dropped() {
    let mut views = WebViewCollection::new("<html>a</html>", "");
    let outcome = NavigationOutcome {
        tab: 3,
        epoch: 0,
        url: "https://gone.example".to_string(),
        result: Err("x".to_string()),
    };
    assert!(!apply_navigation_outcome(&mut views, outcome));
    assert_eq!(views.active().html, "<html>a</html>");
}

// ---- flush keeps order and the active tab ----

#[test]
fn flush_keeps_order_and_follows_the_active_tab() {
    let mut c = WebViewCollection::new("0", CSS);
    for h in ["1", "2", "3", "4"] {
        c.new_tab(h, CSS);
    }
    c.select(0);
    c.close_active();
    c.select(2);
    c.close_active();
    c.select(3);
    assert_eq!(c.flush_close(), 2);
    let htmls: Vec<String> = (0..c.len())
        .map(|i| c.get_mut(i).unwrap().html.clone())
        .collect();
    assert_eq!(htmls, vec!["1", "3", "4"]);
    assert_eq!(c.active_index(), 1);
    assert_eq!(c.active().html, "3");
    for i in 0..c.len() {
        assert!(!c.get_mut(i).unwrap().close_scheduled());
    }
}

#[test]
fn titles_follow_tab_order() {
    let mut c = WebViewCollection::new(HTML_A, CSS);
    c.new_tab(HTML_B, CSS);
    c.active_mut().set_title("second");
    assert_eq!(c.titles(), vec!["新标签页", "second"]);
}

// ---- address-bar navigation ----

#[test]
fn navigate_active_unsupported_shows_placeholder() {
    let mut views = WebViewCollection::new("<html>old</html>", "");
    let action = start_navigation(&mut views, "data:text/html,<b>hi</b>");
    assert!(matches!(action, NavigationAction::Shown));
    assert!(views.active().html.contains("Scheme not supported"));
    assert_eq!(views.active().title, "data:text/html,<b>hi</b>");
}

#[test]
fn navigate_active_http_queues_result_and_bumps_epoch() {
    let mut views = WebViewCollection::new("<html>old</html>", "");
    views.active_mut().store_render(Vec::new(), 0, 0, 0, 0, 1.0f32.to_bits());
    let action = start_navigation(&mut views, "https://127.0.0.1:1/");
    match action {
        NavigationAction::Fetch { url, tab, epoch } => {
            assert_eq!(url, "https://127.0.0.1:1/");
            assert_eq!(tab, 0);
            assert_eq!(epoch, 1);
        }
        other => panic!("expected a fetch, got {:?}", other),
    }
    assert_eq!(views.active().navigation_epoch, 1);
    assert_eq!(views.active().title, "https://127.0.0.1:1/");
    assert_eq!(views.active().html, "<html>old</html>");
    assert!(views.active().needs_repaint());
}

#[test]
fn navigate_active_file_scheme_loads_local_html() {
    let mut views = WebViewCollection::new("<html>old</html>", "");
    let action = start_navigation(&mut views, "file:///tmp/muskitty_nav_file_test.html");
    let path = match action {
        NavigationAction::LoadFile { path } => path,
        other => panic!("expected a file load, got {:?}", other),
    };
    assert_eq!(path, "/tmp/muskitty_nav_file_test.html");
    finish_file_navigation(
        &mut views,
        &path,
        "muskitty_nav_file_test.html",
        Ok("<!doctype html><html><head><style>p{color:blue}</style></head><body><p>nav-file</p></body></html>".to_string()),
    );
    assert!(views.active().html.contains("nav-file"));
    assert_eq!(views.active().css, "p{color:blue}\n");
    assert_eq!(views.active().title, "muskitty_nav_file_test.html");
    assert!(views.active().needs_repaint());
}

#[test]
fn file_navigation_error_shows_error_page() {
    let mut views = WebViewCollection::new("<html>old</html>", "p{}");
    let _ = start_navigation(&mut views, "/missing.html");
    finish_file_navigation(&mut views, "/missing.html", "missing.html", Err("not found".to_string()));
    assert!(views.active().html.contains("Navigation failed"));
    assert!(views.active().html.contains("not found"));
    assert!(views.active().css.is_empty());
    assert_eq!(views.active().title, "/missing.html");
    assert_eq!(views.active().navigation_epoch, 1);
}

#[test]
fn hot_reload_reports_whether_the_html_changed() {
    let mut views = WebViewCollection::new("<style>div{width:10px}</style>", "");
    assert!(!reload_source_tab(
        &mut views,
        0,
        "<style>div{width:10px}</style>".to_string(),
        None
    ));
    assert!(reload_source_tab(
        &mut views,
        0,
        "<style>div{width:99px}</style>".to_string(),
        Some("page.html")
    ));
    assert_eq!(views.active().css, "div{width:99px}\n");
    assert_eq!(views.active().title, "page.html");
    assert!(views.active().needs_repaint());
    assert!(!reload_source_tab(&mut views, 4, "x".to_string(), None));
}

#[test]
fn render_needed_when_dirty_or_viewport_changes() {
    let mut v = WebView::new(HTML_A, CSS);
    assert!(v.needs_render(100, 50, 2.0f32.to_bits()));
    v.store_render(vec![0, 0, 0, 255], 1, 1, 100, 50, 2.0f32.to_bits());
    assert!(!v.needs_render(100, 50, 2.0f32.to_bits()));
    assert!(v.needs_render(101, 50, 2.0f32.to_bits()));
    assert!(v.needs_render(100, 51, 2.0f32.to_bits()));
    assert!(v.needs_render(100, 50, 1.0f32.to_bits()));
    v.mark_needs_repaint();
    assert!(v.needs_render(100, 50, 2.0f32.to_bits()));
}

#[test]
fn render_scale_compares_as_f32() {
    let mut v = WebView::new(HTML_A, CSS);
    v.store_render(vec![0, 0, 0, 255], 1, 1, 10, 10, 0.0f32.to_bits());
    assert!(!v.needs_render(10, 10, (-0.0f32).to_bits()));
    v.store_render(vec![0, 0, 0, 255], 1, 1, 10, 10, f32::NAN.to_bits());
    assert!(v.needs_render(10, 10, f32::NAN.to_bits()));
}
