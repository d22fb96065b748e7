# MusKitty core

The verified core of the MusKitty browser, written in Verus.

- `src/tokenizer.rs`, `src/parser/` and `parse` in `src/lib.rs`: the HTML
  tokenizer and tree construction (WHATWG HTML §13.2), specified by spec
  functions and proved against them. Tree construction is the minimal
  chain Initial → before html → before head → in head → after head → in
  body: in head only `meta`, `link`, `base`, `title`, `style` and `script`
  create elements (`meta` also after the head), and in body only text and
  comments are inserted. Every parse yields a well-formed tree whose
  Document holds one `html` element, besides comments and document types,
  and whose `html` has exactly `head` and then `body` (or `frameset`) as
  element children.
- `src/dom.rs`: the node arena that tree construction builds, with element
  data, `textContent` and tree-order traversal.
- `src/network.rs`: HTTP responses (headers, body, text).
- `src/navigation.rs`: address-bar classification, response to page
  document, HTML escaping and the error pages.
- `src/chrome.rs`: keys, the shell shortcuts, the address bar and key
  routing.
- `src/webview.rs`: web views, the tab collection, and the decisions of
  shortcuts, chrome effects, address-bar navigation and result handling.
- `src/browser.rs`, `src/render.rs`: pixel conversion, built-in pages and
  the border/alignment keywords.
- `app/`: the window layer (winit, softbuffer), network fetches (tokio,
  reqwest) and navigation threads, which call the library. Keyboard input
  goes through the library's shortcut and address-bar routing.

Not in this crate: page layout and painting, and the drawing of the tab
strip and toolbar. The window therefore presents the frame stored in the
active web view (empty until one is stored), keeps a page's last frame
when its viewport changes, and does not handle mouse input, which needs the
drawn chrome's geometry.
- `tests/`: tests of the library.
