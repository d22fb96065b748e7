//! Pixel conversion and the built-in pages of the browser window.

use muskitty::browser::{new_tab_content, rgba_to_0rgb, url_placeholder_page};

#[test]
fn rgba_to_0rgb_byte_order() {
    let data = [255u8, 0, 0, 255, 0, 255, 0, 255, 0, 0, 255, 255];
    assert_eq!(rgba_to_0rgb(&data), vec![0xFF0000, 0x00FF00, 0x0000FF]);
}

#[test]
fn rgba_to_0rgb_drops_alpha_and_partial_pixel() {
    let data = [0x12u8, 0x34, 0x56, 0x78, 1, 2];
    assert_eq!(rgba_to_0rgb(&data), vec![0x123456]);
    assert!(rgba_to_0rgb(&[]).is_empty());
}

#[test]
fn new_tab_content_shows_number() {
    let html = new_tab_content(3);
    assert!(html.contains("Tab 3"));
}

#[test]
fn new_tab_content_exact_text() {
    assert_eq!(
        new_tab_content(120),
        "<!doctype html><html><body><h1 style=\"font-size:72px;color:#1a1a1a\">Tab 120</h1></body></html>"
    );
}

#[test]
fn url_placeholder_escapes_html() {
    let page = url_placeholder_page("<script>x</script>");
    assert!(!page.contains("<script>"));
    assert!(page.contains("&lt;script&gt;"));
}

#[test]
fn url_placeholder_mentions_unsupported_scheme() {
    let page = url_placeholder_page("data:text/html,<b>hi</b>");
    assert!(page.contains("Scheme not supported"));
    assert!(page.contains("data:text/html,&lt;b&gt;hi&lt;/b&gt;"));
}
