//! The streaming stdout front-end's rendering decisions: ANSI styling,
//! collapsing of long tool results, one-line summaries.
//!
//! Printing itself is the host's job; these functions compute the text.

use vstd::prelude::*;
use crate::brain::{Decision, DoneReason, ModelSelector, OutputEvent, Usage};
use crate::json::{Json, compact_json, serde_compact};
use crate::text::{
    chars_eq, chars_of, contains_char, decimal, lines, lines_of, push_char, push_chars, push_decimal, push_str,
    string_of, strs, trim, trim_bounds,
};

verus! {

/// How many leading lines of a tool result to show before collapsing the rest.
pub const RESULT_HEAD_LINES: usize = 8;

/// How many characters one-line summaries keep.
pub const SUMMARY_CHARS: usize = 160;

// ---------------------------------------------------------------------------
// Environment flags
// ---------------------------------------------------------------------------

/// ASCII lower-casing of one character.
pub open spec fn ascii_lower(c: char) -> char {
    if 'A' <= c && c <= 'Z' {
        ((c as u32) + 32) as char
    } else {
        c
    }
}

/// ASCII lower-casing of a text (`str::to_ascii_lowercase`).
pub open spec fn ascii_lower_seq(s: Seq<char>) -> Seq<char> {
    s.map_values(|c: char| ascii_lower(c))
}

/// Whether an environment variable's value reads as true: set, non-empty
/// after trimming, and not `0`, `false` or `no` in any ASCII case.
pub open spec fn truthy(value: Option<Seq<char>>) -> bool {
    match value {
        None => false,
        Some(v) => {
            let t = ascii_lower_seq(trim(v));
            trim(v).len() > 0 && t != "0"@ && t != "false"@ && t != "no"@
        },
    }
}

fn lower_char(c: char) -> (r: char)
    ensures
        r == ascii_lower(c),
{
    if 'A' <= c && c <= 'Z' {
        let code: u32 = (c as u32) + 32;
        let b: u8 = code as u8;
        b as char
    } else {
        c
    }
}

/// Reads an environment variable's value as a boolean (`None`: unset or not
/// Unicode).
pub fn env_truthy(value: Option<&str>) -> (r: bool)
    ensures
        r == truthy(match value {
            Some(v) => Some(v@),
            None => None,
        }),
{
    match value {
        None => false,
        Some(v) => {
            let all = chars_of(v);
            let (lo, hi) = trim_bounds(&all);
            if lo == hi {
                return false;
            }
            let mut low: Vec<char> = Vec::new();
            let mut i = lo;
            while i < hi
                invariant
                    lo <= i <= hi <= all@.len(),
                    low@ == ascii_lower_seq(all@.subrange(lo as int, i as int)),
                decreases hi - i,
            {
                low.push(lower_char(all[i]));
                assert(ascii_lower_seq(all@.subrange(lo as int, i + 1)) =~= ascii_lower_seq(
                    all@.subrange(lo as int, i as int),
                ).push(ascii_lower(all@[i as int])));
                i = i + 1;
            }
            let zero = chars_of("0");
            let f = chars_of("false");
            let no = chars_of("no");
            !chars_eq(&low, &zero) && !chars_eq(&low, &f) && !chars_eq(&low, &no)
        },
    }
}

// ---------------------------------------------------------------------------
// ANSI styling
// ---------------------------------------------------------------------------

/// The ANSI styles the front-end uses.
#[derive(Clone, Copy, Debug, PartialEq)]
pub enum Style {
    Reset,
    Bold,
    Dim,
    Red,
    Green,
    Yellow,
    Cyan,
    Gray,
}

/// The escape sequence of a style.
pub open spec fn style_code(s: Style) -> Seq<char> {
    match s {
        Style::Reset => "\x1b[0m"@,
        Style::Bold => "\x1b[1m"@,
        Style::Dim => "\x1b[2m"@,
        Style::Red => "\x1b[31m"@,
        Style::Green => "\x1b[32m"@,
        Style::Yellow => "\x1b[33m"@,
        Style::Cyan => "\x1b[36m"@,
        Style::Gray => "\x1b[90m"@,
    }
}

impl Style {
    /// The escape sequence of this style.
    pub fn code(self) -> (r: &'static str)
        ensures
            r@ == style_code(self),
    {
        match self {
            Style::Reset => "\x1b[0m",
            Style::Bold => "\x1b[1m",
            Style::Dim => "\x1b[2m",
            Style::Red => "\x1b[31m",
            Style::Green => "\x1b[32m",
            Style::Yellow => "\x1b[33m",
            Style::Cyan => "\x1b[36m",
            Style::Gray => "\x1b[90m",
        }
    }
}

/// `text` wrapped in `style` and a reset when colors are on.
pub open spec fn painted(color: bool, style: Style, text: Seq<char>) -> Seq<char> {
    if color {
        style_code(style) + text + style_code(Style::Reset)
    } else {
        text
    }
}

// ---------------------------------------------------------------------------
// Text helpers
// ---------------------------------------------------------------------------

/// `s` with every newline turned into a space.
pub open spec fn newlines_to_spaces(s: Seq<char>) -> Seq<char> {
    s.map_values(|c: char| if c == '\n' {
        ' '
    } else {
        c
    })
}

/// `s` on one line, cut to `max` characters plus `…` when longer.
pub open spec fn truncated(s: Seq<char>, max: nat) -> Seq<char> {
    let r = newlines_to_spaces(s);
    if r.len() <= max {
        r
    } else {
        r.take(max as int) + "…"@
    }
}

/// Truncate to `max` characters (newlines become spaces), appending an
/// ellipsis if cut.
pub fn truncate(s: &str, max: usize) -> (r: String)
    ensures
        r@ == truncated(s@, max as nat),
{
    let v = chars_of(s);
    let mut flat: Vec<char> = Vec::new();
    let mut i: usize = 0;
    while i < v.len()
        invariant
            i <= v@.len(),
            flat@ == newlines_to_spaces(v@.take(i as int)),
        decreases v.len() - i,
    {
        let c = v[i];
        flat.push(if c == '\n' { ' ' } else { c });
        assert(newlines_to_spaces(v@.take(i + 1)) =~= newlines_to_spaces(v@.take(i as int)).push(
            if c == '\n' { ' ' } else { c },
        ));
        i = i + 1;
    }
    assert(v@.take(v@.len() as int) =~= v@);
    if flat.len() <= max {
        return string_of(&flat);
    }
    let mut out = String::new();
    push_chars(&mut out, &flat, 0, max);
    push_str(&mut out, "…");
    assert(flat@.subrange(0, max as int) =~= flat@.take(max as int));
    out
}

/// A one-line summary prefixed with the result arrow.
pub open spec fn arrowed(first_line: Seq<char>) -> Seq<char> {
    "→ "@ + truncated(first_line, SUMMARY_CHARS as nat)
}

/// Prefix a single-line summary with the result arrow, collapsing newlines.
pub fn arrow(first_line: &str) -> (r: String)
    ensures
        r@ == arrowed(first_line@),
{
    let mut out = String::new();
    push_str(&mut out, "→ ");
    let t = truncate(first_line, SUMMARY_CHARS);
    push_str(&mut out, t.as_str());
    out
}

// ---------------------------------------------------------------------------
// Rendering tool results
// ---------------------------------------------------------------------------

/// Compact one-line text of a value: a string verbatim, anything else as
/// compact JSON.
pub open spec fn compact_text(v: Json) -> Seq<char> {
    match v {
        Json::String(s) => s@,
        _ => serde_compact(v),
    }
}

/// Compact one-line JSON for logging (strings shown verbatim).
pub fn compact(value: &Json) -> (r: String)
    ensures
        r@ == compact_text(*value),
{
    match value {
        Json::String(s) => s.clone(),
        _ => compact_json(value),
    }
}

/// `s` without trailing newlines (`trim_end_matches('\n')`).
pub open spec fn trim_newlines(s: Seq<char>) -> Seq<char>
    decreases s.len(),
{
    if s.len() > 0 && s.last() == '\n' {
        trim_newlines(s.drop_last())
    } else {
        s
    }
}

/// The text one object field renders to.
pub open spec fn field_text(k: Seq<char>, v: Json) -> Seq<char> {
    match v {
        Json::String(s) => if s@.contains('\n') {
            k + ":\n"@ + trim_newlines(s@) + "\n"@
        } else {
            k + ": "@ + s@ + "\n"@
        },
        _ => k + ": "@ + compact_text(v) + "\n"@,
    }
}

/// The text the object entries render to, in order.
pub open spec fn fields_text(es: Seq<(String, Json)>) -> Seq<char>
    decreases es.len(),
{
    if es.len() == 0 {
        seq![]
    } else {
        fields_text(es.drop_last()) + field_text(es.last().0@, es.last().1)
    }
}

/// The human-readable, possibly multi-line text of a tool result: strings
/// verbatim, objects as `key: value` lines (multi-line string fields on
/// their own lines), anything else as compact JSON.
pub open spec fn rendered(v: Json) -> Seq<char> {
    match v {
        Json::String(s) => s@,
        Json::Object(es) => trim_newlines(fields_text(es@)),
        _ => compact_text(v),
    }
}

fn trim_newlines_len(v: &[char], hi: usize) -> (j: usize)
    requires
        hi <= v@.len(),
    ensures
        j <= hi,
        v@.take(j as int) == trim_newlines(v@.take(hi as int)),
{
    let mut j = hi;
    while j > 0 && v[j - 1] == '\n'
        invariant
            j <= hi <= v@.len(),
            trim_newlines(v@.take(hi as int)) == trim_newlines(v@.take(j as int)),
        decreases j,
    {
        assert(v@.take(j as int).drop_last() =~= v@.take(j - 1));
        j = j - 1;
    }
    j
}

/// Render a tool result into human-readable, possibly multi-line text.
pub fn render_result(value: &Json) -> (r: String)
    ensures
        r@ == rendered(*value),
{
    match value {
        Json::String(s) => s.clone(),
        Json::Object(es) => {
            let mut out = String::new();
            let mut i: usize = 0;
            assert(es@.take(0) =~= Seq::<(String, Json)>::empty());
            while i < es.len()
                invariant
                    i <= es@.len(),
                    out@ == fields_text(es@.take(i as int)),
                decreases es.len() - i,
            {
                assert(es@.take(i + 1).drop_last() =~= es@.take(i as int));
                assert(es@.take(i + 1).last() == es@[i as int]);
                let k = es[i].0.as_str();
                match &es[i].1 {
                    Json::String(s) => {
                        let sv = chars_of(s.as_str());
                        if contains_char(&sv, '\n') {
                            push_str(&mut out, k);
                            push_str(&mut out, ":\n");
                            let j = trim_newlines_len(&sv, sv.len());
                            assert(sv@.take(sv@.len() as int) =~= sv@);
                            push_chars(&mut out, &sv, 0, j);
                            assert(sv@.subrange(0, j as int) =~= sv@.take(j as int));
                            push_str(&mut out, "\n");
                        } else {
                            push_str(&mut out, k);
                            push_str(&mut out, ": ");
                            push_str(&mut out, s.as_str());
                            push_str(&mut out, "\n");
                        }
                    },
                    other => {
                        push_str(&mut out, k);
                        push_str(&mut out, ": ");
                        let c = compact(other);
                        push_str(&mut out, c.as_str());
                        push_str(&mut out, "\n");
                    },
                }
                i = i + 1;
            }
            assert(es@.take(es@.len() as int) =~= es@);
            let ov = chars_of(out.as_str());
            let j = trim_newlines_len(&ov, ov.len());
            assert(ov@.take(ov@.len() as int) =~= ov@);
            let mut r = String::new();
            push_chars(&mut r, &ov, 0, j);
            assert(ov@.subrange(0, j as int) =~= ov@.take(j as int));
            r
        },
        _ => compact(value),
    }
}

// ---------------------------------------------------------------------------
// The front-end
// ---------------------------------------------------------------------------

/// Renders agent output and activity for a terminal, with optional ANSI colors.
pub struct StdoutFrontend {
    color: bool,
    /// Whether assistant text is mid-line (the next activity line must break
    /// the line first).
    streaming: bool,
    /// Whether tool results are shown in full instead of collapsed.
    full_output: bool,
}

/// How many result lines are shown: all in full mode, otherwise at most
/// `RESULT_HEAD_LINES`.
pub open spec fn shown_count(n: nat, full: bool) -> nat {
    if full || n < RESULT_HEAD_LINES {
        n
    } else {
        RESULT_HEAD_LINES as nat
    }
}

/// The note that replaces `hidden` collapsed lines.
pub open spec fn collapse_note(color: bool, hidden: nat) -> Seq<char> {
    painted(
        color,
        Style::Dim,
        "    … +"@ + decimal(hidden) + " lines (set BATON_FULL_OUTPUT=1 to expand)"@,
    )
}

/// The header of a finished tool: a check mark or a cross, then the name.
pub open spec fn tool_header(color: bool, name: Seq<char>, is_error: bool) -> Seq<char> {
    if is_error {
        painted(color, Style::Red, "  "@ + "✗"@ + " "@ + name)
    } else {
        painted(color, Style::Green, "  "@ + "✓"@ + " "@ + name)
    }
}

/// The lines a finished tool renders to, given its rendered result `body`:
/// the header with the first body line, the next shown lines indented, then
/// a note counting the hidden lines if any.
pub open spec fn tool_end_text(color: bool, full: bool, name: Seq<char>, body: Seq<char>, is_error: bool) -> Seq<Seq<char>> {
    let ls = lines(body);
    let show = shown_count(ls.len(), full);
    let first = if ls.len() > 0 {
        ls[0]
    } else {
        seq![]
    };
    let head = tool_header(color, name, is_error) + " "@ + painted(color, Style::Gray, arrowed(first));
    let rest = Seq::new(
        if show > 0 {
            (show - 1) as nat
        } else {
            0
        },
        |i: int| painted(color, Style::Gray, "    "@ + ls[i + 1]),
    );
    let hidden = (ls.len() - show) as nat;
    seq![head] + rest + if hidden > 0 {
        seq![collapse_note(color, hidden)]
    } else {
        seq![]
    }
}

impl StdoutFrontend {
    /// Whether colors are on.
    pub closed spec fn color_on(&self) -> bool {
        self.color
    }

    /// Whether tool results are shown in full.
    pub closed spec fn full_output_on(&self) -> bool {
        self.full_output
    }

    /// Whether assistant text is mid-line.
    pub closed spec fn is_streaming(&self) -> bool {
        self.streaming
    }

    /// A front-end configured from the environment: colors when stdout is a
    /// terminal and `NO_COLOR` is unset; full tool output when the value of
    /// `BATON_FULL_OUTPUT` reads as true.
    pub fn new(stdout_is_terminal: bool, no_color_set: bool, full_output_var: Option<&str>) -> (r: StdoutFrontend)
        ensures
            r.color_on() == (stdout_is_terminal && !no_color_set),
            r.full_output_on() == truthy(match full_output_var {
                Some(v) => Some(v@),
                None => None,
            }),
            !r.is_streaming(),
    {
        StdoutFrontend {
            color: stdout_is_terminal && !no_color_set,
            streaming: false,
            full_output: env_truthy(full_output_var),
        }
    }

    /// Force colors on or off, overriding terminal/`NO_COLOR` detection.
    pub fn with_color(self, color: bool) -> (r: StdoutFrontend)
        ensures
            r.color_on() == color,
            r.full_output_on() == self.full_output_on(),
            r.is_streaming() == self.is_streaming(),
    {
        StdoutFrontend { color, ..self }
    }

    /// Force full (uncollapsed) tool-result rendering on or off.
    pub fn with_full_output(self, full: bool) -> (r: StdoutFrontend)
        ensures
            r.full_output_on() == full,
            r.color_on() == self.color_on(),
            r.is_streaming() == self.is_streaming(),
    {
        StdoutFrontend { full_output: full, ..self }
    }

    /// Wrap `text` in an ANSI code when colors are enabled.
    pub fn paint(&self, style: Style, text: &str) -> (r: String)
        ensures
            r@ == painted(self.color_on(), style, text@),
    {
        if self.color {
            let mut out = String::new();
            push_str(&mut out, style.code());
            push_str(&mut out, text);
            push_str(&mut out, Style::Reset.code());
            out
        } else {
            let mut out = String::new();
            push_str(&mut out, text);
            out
        }
    }

    /// Ends mid-line streaming before an activity line: returns whether a
    /// line break must be printed first.
    pub fn break_stream(&mut self) -> (r: bool)
        ensures
            r == old(self).is_streaming(),
            !final(self).is_streaming(),
            final(self).color_on() == old(self).color_on(),
            final(self).full_output_on() == old(self).full_output_on(),
    {
        let was = self.streaming;
        self.streaming = false;
        was
    }

    /// Records that assistant text was printed without a line break.
    pub fn mark_streaming(&mut self)
        ensures
            final(self).is_streaming(),
            final(self).color_on() == old(self).color_on(),
            final(self).full_output_on() == old(self).full_output_on(),
    {
        self.streaming = true;
    }

    /// The (already styled) lines a finished tool renders to. In compact mode
    /// the body is a head of at most `RESULT_HEAD_LINES` lines followed by a
    /// "… +N lines" note; with full output the whole result is shown.
    pub fn tool_end_lines(&self, name: &str, result: &Json, is_error: bool) -> (r: Vec<String>)
        ensures
            strs(r@) == tool_end_text(self.color_on(), self.full_output_on(), name@, rendered(*result), is_error),
    {
        let mut htext = String::new();
        push_str(&mut htext, "  ");
        push_str(&mut htext, if is_error { "✗" } else { "✓" });
        push_str(&mut htext, " ");
        push_str(&mut htext, name);
        let header = self.paint(if is_error { Style::Red } else { Style::Green }, htext.as_str());
        let body = render_result(result);
        let bv = chars_of(body.as_str());
        let ls = lines_of(&bv);
        let ghost lv = lines(rendered(*result));
        assert(strs_of_lines(ls@) == lv);
        let n = ls.len();
        let show: usize = if self.full_output || n < RESULT_HEAD_LINES {
            n
        } else {
            RESULT_HEAD_LINES
        };
        let first: String = if n > 0 {
            string_of(&ls[0])
        } else {
            String::new()
        };
        proof {
            if n > 0 {
                assert(lv[0] == ls@[0]@);
            }
        }
        let mut head = header;
        push_str(&mut head, " ");
        let a = arrow(first.as_str());
        let pa = self.paint(Style::Gray, a.as_str());
        push_str(&mut head, pa.as_str());
        let ghost first_spec = if lv.len() > 0 {
            lv[0]
        } else {
            seq![]
        };
        assert(first@ == first_spec);
        let ghost hs = tool_header(self.color, name@, is_error) + " "@ + painted(
            self.color,
            Style::Gray,
            arrowed(first_spec),
        );
        assert(head@ == hs);
        let mut out: Vec<String> = Vec::new();
        out.push(head);
        let ghost color = self.color;
        let mut i: usize = 1;
        while i < show
            invariant
                1 <= i,
                show > 0 ==> i <= show,
                show == 0 ==> i == 1,
                show <= n == ls@.len() == lv.len(),
                color == self.color,
                forall|j: int| 0 <= j < n ==> lv[j] == #[trigger] ls@[j]@,
                strs(out@)[0] == hs,
                strs(out@) == seq![strs(out@)[0]] + Seq::new(
                    (i - 1) as nat,
                    |j: int| painted(color, Style::Gray, "    "@ + lv[j + 1]),
                ),
            decreases show - i,
        {
            let mut l = String::new();
            push_str(&mut l, "    ");
            push_chars(&mut l, &ls[i], 0, ls[i].len());
            assert(ls@[i as int]@.subrange(0, ls@[i as int]@.len() as int) =~= lv[i as int]);
            let pl = self.paint(Style::Gray, l.as_str());
            let ghost prev = strs(out@);
            out.push(pl);
            assert(strs(out@) =~= prev.push(pl@));
            assert(strs(out@) =~= seq![strs(out@)[0]] + Seq::new(
                i as nat,
                |j: int| painted(color, Style::Gray, "    "@ + lv[j + 1]),
            ));
            i = i + 1;
        }
        let ghost rest = Seq::new(
            if show > 0 {
                (show - 1) as nat
            } else {
                0
            },
            |j: int| painted(color, Style::Gray, "    "@ + lv[j + 1]),
        );
        assert(strs(out@) =~= seq![hs] + rest);
        let hidden: usize = n - show;
        if hidden > 0 {
            let mut note = String::new();
            push_str(&mut note, "    … +");
            push_decimal(&mut note, hidden as u64);
            push_str(&mut note, " lines (set BATON_FULL_OUTPUT=1 to expand)");
            let pn = self.paint(Style::Dim, note.as_str());
            let ghost prev = strs(out@);
            out.push(pn);
            assert(strs(out@) =~= prev.push(pn@));
            assert(pn@ == collapse_note(color, hidden as nat));
        }
        assert(strs(out@) =~= tool_end_text(self.color, self.full_output, name@, rendered(*result), is_error));
        out
    }

    /// The line for a model call that starts.
    pub fn model_start_line(&self, selector: &ModelSelector, op_label: &str) -> (r: String)
        ensures
            r@ == ({
                let ModelSelector::Named(name) = *selector;
                painted(self.color_on(), Style::Cyan, "●"@) + " "@ + painted(
                    self.color_on(),
                    Style::Dim,
                    "model ["@ + name@ + "] "@ + op_label@,
                )
            }),
    {
        let ModelSelector::Named(name) = selector;
        let marker = self.paint(Style::Cyan, "●");
        let mut label = String::new();
        push_str(&mut label, "model [");
        push_str(&mut label, name.as_str());
        push_str(&mut label, "] ");
        push_str(&mut label, op_label);
        let plabel = self.paint(Style::Dim, label.as_str());
        let mut out = marker;
        push_str(&mut out, " ");
        push_str(&mut out, plabel.as_str());
        out
    }

    /// The usage line for a finished model call; none when the provider
    /// reported no tokens.
    pub fn model_end_line(&self, usage: &Usage) -> (r: Option<String>)
        ensures
            usage.input_tokens == 0 && usage.output_tokens == 0 ==> r is None,
            !(usage.input_tokens == 0 && usage.output_tokens == 0) ==> (r matches Some(l) && l@
                == painted(
                self.color_on(),
                Style::Gray,
                "  ↳ "@ + decimal(usage.input_tokens as nat) + " in / "@ + decimal(
                    usage.output_tokens as nat,
                ) + " out tokens"@,
            )),
    {
        if usage.input_tokens == 0 && usage.output_tokens == 0 {
            return None;
        }
        let mut text = String::new();
        push_str(&mut text, "  ↳ ");
        push_decimal(&mut text, usage.input_tokens);
        push_str(&mut text, " in / ");
        push_decimal(&mut text, usage.output_tokens);
        push_str(&mut text, " out tokens");
        Some(self.paint(Style::Gray, text.as_str()))
    }

    /// The line for a tool that starts: its name, its arguments as compact
    /// JSON cut to `SUMMARY_CHARS` characters, and the op.
    pub fn tool_start_line(&self, name: &str, args: &Json, op_label: &str) -> (r: String)
        ensures
            r@ == painted(self.color_on(), Style::Yellow, "⚙"@) + " "@ + painted(
                self.color_on(),
                Style::Bold,
                name@,
            ) + " "@ + painted(
                self.color_on(),
                Style::Dim,
                truncated(compact_text(*args), SUMMARY_CHARS as nat),
            ) + " "@ + painted(self.color_on(), Style::Gray, op_label@),
    {
        let marker = self.paint(Style::Yellow, "⚙");
        let pname = self.paint(Style::Bold, name);
        let c = compact(args);
        let t = truncate(c.as_str(), SUMMARY_CHARS);
        let pargs = self.paint(Style::Dim, t.as_str());
        let pop = self.paint(Style::Gray, op_label);
        let mut out = marker;
        push_str(&mut out, " ");
        push_str(&mut out, pname.as_str());
        push_str(&mut out, " ");
        push_str(&mut out, pargs.as_str());
        push_str(&mut out, " ");
        push_str(&mut out, pop.as_str());
        out
    }

    /// The line for a decided permission request.
    pub fn permission_line(&self, capability: &str, decision: &Decision) -> (r: String)
        ensures
            r@ == match *decision {
                Decision::Allow => painted(
                    self.color_on(),
                    Style::Green,
                    "  ↳ allowed `"@ + capability@ + "`"@,
                ),
                Decision::Deny { reason } => painted(
                    self.color_on(),
                    Style::Red,
                    "  ↳ denied `"@ + capability@ + "`: "@ + reason@,
                ),
            },
    {
        match decision {
            Decision::Allow => {
                let mut t = String::new();
                push_str(&mut t, "  ↳ allowed `");
                push_str(&mut t, capability);
                push_str(&mut t, "`");
                self.paint(Style::Green, t.as_str())
            },
            Decision::Deny { reason } => {
                let mut t = String::new();
                push_str(&mut t, "  ↳ denied `");
                push_str(&mut t, capability);
                push_str(&mut t, "`: ");
                push_str(&mut t, reason.as_str());
                self.paint(Style::Red, t.as_str())
            },
        }
    }

    /// What a terminal turn prints: nothing for a normal end, a warning on
    /// stdout for a cancellation, an error on stderr (`true`) otherwise.
    pub fn done_line(&self, reason: &DoneReason) -> (r: Option<(bool, String)>)
        ensures
            match *reason {
                DoneReason::EndTurn => r is None,
                DoneReason::Cancelled => r matches Some((e, l)) && !e && l@ == painted(
                    self.color_on(),
                    Style::Yellow,
                    "⚠ cancelled"@,
                ),
                DoneReason::Error(msg) => r matches Some((e, l)) && e && l@ == painted(
                    self.color_on(),
                    Style::Red,
                    "✗ error: "@ + msg@,
                ),
            },
    {
        match reason {
            DoneReason::EndTurn => None,
            DoneReason::Cancelled => Some((false, self.paint(Style::Yellow, "⚠ cancelled"))),
            DoneReason::Error(msg) => {
                let mut t = String::new();
                push_str(&mut t, "✗ error: ");
                push_str(&mut t, msg.as_str());
                Some((true, self.paint(Style::Red, t.as_str())))
            },
        }
    }

    /// The text a streamed tool chunk prints as: strings verbatim, anything
    /// else as compact JSON, in gray.
    pub fn chunk_text(&self, chunk: &Json) -> (r: String)
        ensures
            r@ == painted(self.color_on(), Style::Gray, compact_text(*chunk)),
    {
        let c = compact(chunk);
        self.paint(Style::Gray, c.as_str())
    }
}

/// What streaming an output event writes to stdout: assistant text as is
/// (mid-line); a tool chunk in gray after ending any open stream; a notice
/// as a gray line; nothing for reasoning and tool starts (reported
/// elsewhere).
pub open spec fn output_text(streaming: bool, color: bool, e: OutputEvent) -> Seq<char> {
    let brk = if streaming {
        seq!['\n']
    } else {
        Seq::<char>::empty()
    };
    match e {
        OutputEvent::ModelText { text, .. } => text@,
        OutputEvent::ToolChunk { chunk, .. } => brk + painted(color, Style::Gray, compact_text(chunk)),
        OutputEvent::Notice(msg) => brk + painted(color, Style::Gray, msg@) + seq!['\n'],
        _ => Seq::<char>::empty(),
    }
}

/// Whether the output is mid-line after streaming an event.
pub open spec fn streaming_after(streaming: bool, e: OutputEvent) -> bool {
    match e {
        OutputEvent::ModelText { .. } => true,
        OutputEvent::ToolChunk { .. } => false,
        OutputEvent::Notice(_) => false,
        _ => streaming,
    }
}

impl StdoutFrontend {
    /// Streams one output event: returns exactly what to write to stdout.
    pub fn on_output(&mut self, event: &OutputEvent) -> (r: String)
        ensures
            r@ == output_text(old(self).is_streaming(), old(self).color_on(), *event),
            final(self).is_streaming() == streaming_after(old(self).is_streaming(), *event),
            final(self).color_on() == old(self).color_on(),
            final(self).full_output_on() == old(self).full_output_on(),
    {
        match event {
            OutputEvent::ModelText { text, .. } => {
                self.mark_streaming();
                text.clone()
            },
            OutputEvent::ToolChunk { chunk, .. } => {
                let mut out = String::new();
                if self.break_stream() {
                    push_char(&mut out, '\n');
                }
                let c = self.chunk_text(chunk);
                push_str(&mut out, c.as_str());
                out
            },
            OutputEvent::Notice(msg) => {
                let mut out = String::new();
                if self.break_stream() {
                    push_char(&mut out, '\n');
                }
                let c = self.paint(Style::Gray, msg.as_str());
                push_str(&mut out, c.as_str());
                push_char(&mut out, '\n');
                out
            },
            _ => String::new(),
        }
    }
}

/// The views of a sequence of character vectors.
pub open spec fn strs_of_lines(v: Seq<Vec<char>>) -> Seq<Seq<char>> {
    v.map_values(|w: Vec<char>| w@)
}

// ---------------------------------------------------------------------------
// Laws
// ---------------------------------------------------------------------------

/// Full output never collapses: one line per result line (at least one),
/// no note.
pub proof fn law_full_output_shows_every_line(color: bool, name: Seq<char>, body: Seq<char>, is_error: bool)
    ensures
        tool_end_text(color, true, name, body, is_error).len() == if lines(body).len() > 0 {
            lines(body).len()
        } else {
            1
        },
{
}

/// Collapsed output is bounded: at most `RESULT_HEAD_LINES` result lines
/// plus one note, whatever the size of the result.
pub proof fn law_collapsed_output_is_bounded(color: bool, name: Seq<char>, body: Seq<char>, is_error: bool)
    ensures
        tool_end_text(color, false, name, body, is_error).len() <= RESULT_HEAD_LINES + 1,
{
}

/// A result of at most `RESULT_HEAD_LINES` lines renders the same collapsed
/// or in full.
pub proof fn law_short_results_are_not_collapsed(color: bool, name: Seq<char>, body: Seq<char>, is_error: bool)
    requires
        lines(body).len() <= RESULT_HEAD_LINES,
    ensures
        tool_end_text(color, false, name, body, is_error) == tool_end_text(color, true, name, body, is_error),
{
}

/// A collapsed long result ends with a note counting exactly the hidden lines.
pub proof fn law_collapse_note_counts_hidden_lines(color: bool, name: Seq<char>, body: Seq<char>, is_error: bool)
    requires
        lines(body).len() > RESULT_HEAD_LINES,
    ensures
        tool_end_text(color, false, name, body, is_error).last() == collapse_note(
            color,
            (lines(body).len() - RESULT_HEAD_LINES) as nat,
        ),
{
}

/// A truncated text is one line of at most `max` characters plus the ellipsis.
pub proof fn law_truncated_is_one_short_line(s: Seq<char>, max: nat)
    ensures
        truncated(s, max).len() <= max + 1,
        !truncated(s, max).contains('\n'),
{
    reveal_strlit("…");
    let r = newlines_to_spaces(s);
    assert(forall|i: int| 0 <= i < r.len() ==> #[trigger] r[i] != '\n');
    if r.len() > max {
        let t = r.take(max as int) + "…"@;
        assert(forall|i: int| 0 <= i < t.len() ==> #[trigger] t[i] != '\n') by {
            assert forall|i: int| 0 <= i < t.len() implies #[trigger] t[i] != '\n' by {
                if i < max {
                    assert(t[i] == r[i]);
                } else {
                    assert(t[i] == '…');
                }
            }
        }
    }
}

/// With colors off, painting leaves a text unchanged.
pub proof fn law_plain_paint_is_identity(style: Style, text: Seq<char>)
    ensures
        painted(false, style, text) == text,
{
}

/// A tool result renders as itself when it is a string, and as its compact
/// JSON when it is neither a string nor an object (an array, number,
/// boolean or null).
pub proof fn law_plain_results_render_as_compact_json(v: Json)
    ensures
        v matches Json::String(s) ==> rendered(v) == s@,
        !(v is String) && !(v is Object) ==> rendered(v) == serde_compact(v),
{
}

/// The first line a finished tool shows for a non-empty result that is
/// neither a string nor an object is its compact JSON behind the arrow.
pub proof fn law_tool_end_shows_compact_json(color: bool, full: bool, name: Seq<char>, v: Json, is_error: bool)
    requires
        !(v is String),
        !(v is Object),
        lines(serde_compact(v)).len() > 0,
    ensures
        tool_end_text(color, full, name, rendered(v), is_error)[0] == tool_header(color, name, is_error) + " "@
            + painted(color, Style::Gray, arrowed(lines(serde_compact(v))[0])),
{
}

} // verus!
