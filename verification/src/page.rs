//! The renderer: converts a markdown source into a complete HTML page and
//! the matching status record text. The markdown conversion itself is
//! comrak's work and is only named here; everything around it — the fixed
//! page template, where the title, the file name, the converted body and
//! the clock text stand in it, and the status record written beside the
//! page — is assembled by verified code with an exact contract.

use vstd::prelude::*;
use crate::status::{status_seq, status_json};

verus! {

/// What comrak's markdown-to-HTML conversion with default options returns
/// for a given source text.
pub uninterp spec fn markdown_html(md: Seq<char>) -> Seq<char>;

/// Relies on comrak::markdown_to_html with default options: the result
/// depends on the source text alone.
#[verifier::external_body]
fn comrak_html(md: &str) -> (r: String)
    ensures
        r@ == markdown_html(md@),
{
    comrak::markdown_to_html(md, &comrak::Options::default())
}

/// Relies on chrono::Local::now and DateTime::timestamp_millis: the wall
/// clock now, in milliseconds since the epoch. Nothing is assumed of the
/// value.
#[verifier::external_body]
fn now_millis() -> i64 {
    chrono::Local::now().timestamp_millis()
}

/// Relies on chrono::Local::now and DateTime::format with `%H:%M:%S`: the
/// wall clock now as an `HH:MM:SS` text. Nothing is assumed of the value.
#[verifier::external_body]
fn now_clock_text() -> String {
    chrono::Local::now().format("%H:%M:%S").to_string()
}

/// The template up to the page title.
pub open spec fn page_before_title() -> Seq<char> {
    "<!DOCTYPE html>
<html lang='en'>
<head>
<meta charset='utf-8'>
<meta name='viewport' content='width=device-width, initial-scale=1.0'>
<title>"@
}

/// The template between the page title and the watched file's name: the
/// stylesheet, the polling script that reloads the page when the status
/// record's timestamp changes, and the header around the name.
pub open spec fn page_title_to_name() -> Seq<char> {
    "</title>
<style>
body { font-family: sans-serif; margin: 2rem auto; max-width: 48rem; padding: 0 1rem; color: #1f2937; }
header { color: #6b7280; border-bottom: 1px solid #e5e7eb; padding-bottom: 0.5rem; }
footer { color: #9ca3af; border-top: 1px solid #e5e7eb; margin-top: 2rem; padding-top: 0.5rem; font-size: 0.875rem; }
#content pre { background: #f3f4f6; padding: 1rem; border-radius: 0.375rem; overflow-x: auto; }
#content code { font-family: monospace; }
#content blockquote { border-left: 4px solid #e5e7eb; margin-left: 0; padding-left: 1rem; color: #4b5563; }
</style>
<script>
let lastSeen = null;
async function checkStatus() {
  try {
    const response = await fetch('/status.json', { cache: 'no-store' });
    const data = await response.json();
    if (lastSeen === null) { lastSeen = data.timestamp; return; }
    if (data.timestamp !== lastSeen) { window.location.reload(); }
  } catch (e) { }
}
checkStatus();
setInterval(checkStatus, 500);
</script>
</head>
<body>
<header>Live preview: <strong>"@
}

/// The template between the file's name and the converted body.
pub open spec fn page_name_to_body() -> Seq<char> {
    "</strong></header>
<main id='content'>
"@
}

/// The template between the converted body and the clock text.
pub open spec fn page_body_to_time() -> Seq<char> {
    "</main>
<footer>Rendered at "@
}

/// The template after the clock text.
pub open spec fn page_after_time() -> Seq<char> {
    "</footer>
</body>
</html>
"@
}

/// The full page for a title, a file name, a converted body and a clock
/// text.
pub open spec fn page_seq(
    title: Seq<char>,
    name: Seq<char>,
    body: Seq<char>,
    time: Seq<char>,
) -> Seq<char> {
    page_before_title() + title + page_title_to_name() + name + page_name_to_body() + body
        + page_body_to_time() + time + page_after_time()
}

/// Where the converted body ends within the page: everything up to here
/// is independent of the clock.
pub open spec fn content_end(title: Seq<char>, name: Seq<char>, body: Seq<char>) -> int {
    (page_before_title().len() + title.len() + page_title_to_name().len() + name.len()
        + page_name_to_body().len() + body.len()) as int
}

fn part_before_title() -> (r: &'static str)
    ensures
        r@ == page_before_title(),
{
    "<!DOCTYPE html>
<html lang='en'>
<head>
<meta charset='utf-8'>
<meta name='viewport' content='width=device-width, initial-scale=1.0'>
<title>"
}

fn part_title_to_name() -> (r: &'static str)
    ensures
        r@ == page_title_to_name(),
{
    "</title>
<style>
body { font-family: sans-serif; margin: 2rem auto; max-width: 48rem; padding: 0 1rem; color: #1f2937; }
header { color: #6b7280; border-bottom: 1px solid #e5e7eb; padding-bottom: 0.5rem; }
footer { color: #9ca3af; border-top: 1px solid #e5e7eb; margin-top: 2rem; padding-top: 0.5rem; font-size: 0.875rem; }
#content pre { background: #f3f4f6; padding: 1rem; border-radius: 0.375rem; overflow-x: auto; }
#content code { font-family: monospace; }
#content blockquote { border-left: 4px solid #e5e7eb; margin-left: 0; padding-left: 1rem; color: #4b5563; }
</style>
<script>
let lastSeen = null;
async function checkStatus() {
  try {
    const response = await fetch('/status.json', { cache: 'no-store' });
    const data = await response.json();
    if (lastSeen === null) { lastSeen = data.timestamp; return; }
    if (data.timestamp !== lastSeen) { window.location.reload(); }
  } catch (e) { }
}
checkStatus();
setInterval(checkStatus, 500);
</script>
</head>
<body>
<header>Live preview: <strong>"
}

fn part_name_to_body() -> (r: &'static str)
    ensures
        r@ == page_name_to_body(),
{
    "</strong></header>
<main id='content'>
"
}

fn part_body_to_time() -> (r: &'static str)
    ensures
        r@ == page_body_to_time(),
{
    "</main>
<footer>Rendered at "
}

fn part_after_time() -> (r: &'static str)
    ensures
        r@ == page_after_time(),
{
    "</footer>
</body>
</html>
"
}

/// Builds the full page around an already-converted HTML body.
pub fn render_page(title: &str, name: &str, body: &str, time_text: &str) -> (r: String)
    ensures
        r@ == page_seq(title@, name@, body@, time_text@),
{
    let mut s = part_before_title().to_owned();
    s.append(title);
    s.append(part_title_to_name());
    s.append(name);
    s.append(part_name_to_body());
    s.append(body);
    s.append(part_body_to_time());
    s.append(time_text);
    s.append(part_after_time());
    proof {
        assert(s@ =~= page_seq(title@, name@, body@, time_text@));
    }
    s
}

/// One render pass's artifacts.
pub struct RenderOutput {
    /// The full HTML document.
    pub page: String,
    /// The status record text written beside it.
    pub status: String,
    /// The clock reading carried by the status record.
    pub timestamp: i64,
    /// The clock text shown in the page footer.
    pub time_text: String,
}

/// Whether `out` is exactly what rendering `md` under the given title and
/// file name produces: the page is the template around comrak's
/// conversion of `md` and `out`'s own clock text, and the status record
/// is the one-line JSON of `out`'s own timestamp.
pub open spec fn render_output_ok(
    out: RenderOutput,
    md: Seq<char>,
    title: Seq<char>,
    name: Seq<char>,
) -> bool {
    &&& out.page@ == page_seq(title, name, markdown_html(md), out.time_text@)
    &&& out.status@ == status_seq(out.timestamp as int)
}

/// Renders a markdown source with explicit clock readings.
pub fn render_pass(md: &str, title: &str, name: &str, timestamp: i64, time_text: &str) -> (r:
    RenderOutput)
    ensures
        r.timestamp == timestamp,
        r.time_text@ == time_text@,
        render_output_ok(r, md@, title@, name@),
{
    let body = comrak_html(md);
    let page = render_page(title, name, body.as_str(), time_text);
    let status = status_json(timestamp);
    RenderOutput { page, status, timestamp, time_text: time_text.to_owned() }
}

/// Renders a markdown source with the current wall clock.
pub fn render_now(md: &str, title: &str, name: &str) -> (r: RenderOutput)
    ensures
        render_output_ok(r, md@, title@, name@),
{
    let ts = now_millis();
    let tt = now_clock_text();
    render_pass(md, title, name, ts, tt.as_str())
}

/// Law: rendering is deterministic apart from the clock: two renders of
/// the same source, title and file name agree byte for byte on the whole
/// page up to the end of the converted content region, whatever clock
/// texts they embed — and that region holds exactly the conversion of the
/// source.
pub proof fn lemma_render_deterministic(
    md: Seq<char>,
    title: Seq<char>,
    name: Seq<char>,
    time1: Seq<char>,
    time2: Seq<char>,
)
    ensures
        ({
            let body = markdown_html(md);
            let k = content_end(title, name, body);
            let p1 = page_seq(title, name, body, time1);
            let p2 = page_seq(title, name, body, time2);
            &&& p1.subrange(0, k) == p2.subrange(0, k)
            &&& p1.subrange(k - body.len(), k) == body
        }),
{
    let body = markdown_html(md);
    let k = content_end(title, name, body);
    let p1 = page_seq(title, name, body, time1);
    let p2 = page_seq(title, name, body, time2);
    assert(p1.subrange(0, k) =~= p2.subrange(0, k));
    assert(p1.subrange(k - body.len(), k) =~= body);
}

} // verus!
