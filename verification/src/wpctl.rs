//! wpctl.rs — WirePlumber status format
//!
//! The text that `wpctl status` prints, read into structured [`AudioSink`]
//! data: what a sink line says, where the `Sinks:` section starts and where
//! it ends.
use vstd::prelude::*;

use crate::text::{
    contains, contains_chars, ends_with, ends_with_chars, find_char, find_char_exec,
    find_char_from, last_occurrence_upto, lemma_find_char_at, lemma_last_occurrence_skips,
    lemma_parse_u32_digits, lemma_trim_end_stops, lemma_trim_idempotent, lemma_trim_keeps,
    lemma_trim_nonempty, lemma_trim_start_after_whitespace, lemma_trim_start_append,
    lemma_trim_start_idempotent, lemma_trim_start_is_suffix_of, lines, occurs_at, all_digits, digits_value, is_digit, is_whitespace,
    parse_u32, parse_u32_chars, rfind, rfind_chars, split_lines, str_chars, string_from_chars,
    sub_chars, trim, trim_chars, trim_start, trim_start_chars, views,
};

verus! {

// ─── Data types ──────────────────────────────────────────────────────────────

/// A single PipeWire audio output sink discovered from `wpctl status`.
#[derive(Debug, Clone)]
pub struct AudioSink {
    /// Numeric PipeWire object ID used by `wpctl`.
    pub id: u32,
    /// Human-readable device name (trimmed, `[vol: …]` stripped).
    pub name: String,
    /// `true` when this is the current default sink (line starts with `*`).
    pub is_default: bool,
}

/// What an [`AudioSink`] holds, with its name as a sequence of characters.
pub struct SinkView {
    pub id: u32,
    pub name: Seq<char>,
    pub is_default: bool,
}

impl View for AudioSink {
    type V = SinkView;

    open spec fn view(&self) -> SinkView {
        SinkView { id: self.id, name: self.name@, is_default: self.is_default }
    }
}

/// The views of a sequence of sinks.
pub open spec fn sink_views(v: Seq<AudioSink>) -> Seq<SinkView> {
    v.map_values(|s: AudioSink| s@)
}

/// One sink line of the `Sinks:` section: the ID as written, its value, the
/// name and the default marker.
pub struct SinkEntry {
    pub id_text: Seq<char>,
    pub id: u32,
    pub name: Seq<char>,
    pub is_default: bool,
}

// ─── The format ──────────────────────────────────────────────────────────────

/// The box-drawing characters of the tree that `wpctl status` draws:
/// `│`, `├`, `─`, `└` and `┤`.
pub open spec fn is_tree_glyph(c: char) -> bool {
    c == '\u{2502}' || c == '\u{251C}' || c == '\u{2500}' || c == '\u{2514}' || c == '\u{2524}'
}

/// The line with every tree glyph removed.
pub open spec fn strip_glyphs(s: Seq<char>) -> Seq<char>
    decreases s.len(),
{
    if s.len() == 0 {
        s
    } else if is_tree_glyph(s.last()) {
        strip_glyphs(s.drop_last())
    } else {
        strip_glyphs(s.drop_last()).push(s.last())
    }
}

/// `Sinks:`, the end of the header that opens the section.
pub open spec fn sinks_header() -> Seq<char> {
    seq!['S', 'i', 'n', 'k', 's', ':']
}

/// `─ `, the branch that a section header hangs from.
pub open spec fn branch_marker() -> Seq<char> {
    seq!['\u{2500}', ' ']
}

/// `[vol:`, where the volume annotation after a sink's name begins.
pub open spec fn volume_marker() -> Seq<char> {
    seq!['[', 'v', 'o', 'l', ':']
}

/// What a line inside the `Sinks:` section describes: `None` for a line that
/// is blank, has no `.` after the ID, has an ID that is not a `u32`, or has an
/// empty name. An optional `*` marks the default sink; the ID is the text
/// before the first `.`; the name is the rest, without its last `[vol:`
/// annotation.
pub open spec fn sink_line(raw: Seq<char>) -> Option<SinkEntry> {
    let content = trim(strip_glyphs(raw));
    if content.len() == 0 {
        None
    } else {
        let is_default = content[0] == '*';
        let rest = if is_default {
            trim_start(content.drop_first())
        } else {
            content
        };
        match find_char(rest, '.') {
            None => None,
            Some(p) => {
                let id_text = trim(rest.take(p));
                let name_raw = trim(rest.skip(p + 1));
                let name = match rfind(name_raw, volume_marker()) {
                    Some(q) => trim(name_raw.take(q)),
                    None => name_raw,
                };
                match parse_u32(id_text) {
                    None => None,
                    Some(id) => if name.len() == 0 {
                        None
                    } else {
                        Some(SinkEntry { id_text, id, name, is_default })
                    },
                }
            },
        }
    }
}

/// Whether a line, inside the section, is the header of the next section:
/// it hangs from a `─ ` branch and ends with `:` once the glyphs are gone.
pub open spec fn closes_section(raw: Seq<char>) -> bool {
    contains(raw, branch_marker()) && ends_with(strip_glyphs(raw), seq![':'])
}

/// The sink entries found in `lines`, given whether the `Sinks:` section is
/// already open. A header ending in `Sinks:` opens (or reopens) the section;
/// the next section header closes it and ends the scan.
pub open spec fn scan_status(lines: Seq<Seq<char>>, in_section: bool) -> Seq<SinkEntry>
    decreases lines.len(),
{
    if lines.len() == 0 {
        Seq::empty()
    } else {
        let raw = lines[0];
        let rest = lines.drop_first();
        if ends_with(strip_glyphs(raw), sinks_header()) {
            scan_status(rest, true)
        } else if in_section && closes_section(raw) {
            Seq::empty()
        } else if !in_section {
            scan_status(rest, false)
        } else {
            match sink_line(raw) {
                Some(e) => seq![e] + scan_status(rest, true),
                None => scan_status(rest, true),
            }
        }
    }
}

/// The sink entries of a whole `wpctl status` output.
pub open spec fn status_entries(output: Seq<char>) -> Seq<SinkEntry> {
    scan_status(lines(output), false)
}

/// The sink that an entry describes, with its numeric ID.
pub open spec fn entry_sink(e: SinkEntry) -> SinkView {
    SinkView { id: e.id, name: e.name, is_default: e.is_default }
}

/// The sinks of a whole `wpctl status` output.
pub open spec fn status_sinks(output: Seq<char>) -> Seq<SinkView> {
    status_entries(output).map_values(|e: SinkEntry| entry_sink(e))
}

// ─── Laws ────────────────────────────────────────────────────────────────────

/// An entry as every sink line yields it: its ID text reads as its ID, and its
/// name is neither empty nor surrounded by whitespace.
pub open spec fn entry_well_formed(e: SinkEntry) -> bool {
    &&& parse_u32(e.id_text) == Some(e.id)
    &&& e.name.len() > 0
    &&& trim(e.name) == e.name
}

proof fn lemma_strip_glyphs_leaves_none(s: Seq<char>)
    ensures
        forall|i: int| 0 <= i < strip_glyphs(s).len() ==> !is_tree_glyph(#[trigger] strip_glyphs(s)[i]),
    decreases s.len(),
{
    if s.len() > 0 {
        let prev = strip_glyphs(s.drop_last());
        lemma_strip_glyphs_leaves_none(s.drop_last());
        if !is_tree_glyph(s.last()) {
            assert forall|i: int| 0 <= i < strip_glyphs(s).len() implies !is_tree_glyph(
                #[trigger] strip_glyphs(s)[i],
            ) by {
                if i < prev.len() {
                    assert(strip_glyphs(s)[i] == prev[i]);
                }
            }
        }
    }
}

proof fn lemma_strip_glyphs_keeps_plain(s: Seq<char>)
    requires
        forall|i: int| 0 <= i < s.len() ==> !is_tree_glyph(#[trigger] s[i]),
    ensures
        strip_glyphs(s) == s,
    decreases s.len(),
{
    if s.len() > 0 {
        assert(!is_tree_glyph(s[s.len() - 1]));
        lemma_strip_glyphs_keeps_plain(s.drop_last());
        assert(s.drop_last().push(s.last()) =~= s);
    }
}

/// Stripping the tree glyphs leaves none of them, changes nothing in a line
/// that has none, and so changes nothing when done again.
pub proof fn law_strip_glyphs(s: Seq<char>)
    ensures
        forall|i: int| 0 <= i < strip_glyphs(s).len() ==> !is_tree_glyph(#[trigger] strip_glyphs(s)[i]),
        (forall|i: int| 0 <= i < s.len() ==> !is_tree_glyph(#[trigger] s[i])) ==> strip_glyphs(s) == s,
        strip_glyphs(strip_glyphs(s)) == strip_glyphs(s),
{
    lemma_strip_glyphs_leaves_none(s);
    lemma_strip_glyphs_keeps_plain(strip_glyphs(s));
    if forall|i: int| 0 <= i < s.len() ==> !is_tree_glyph(#[trigger] s[i]) {
        lemma_strip_glyphs_keeps_plain(s);
    }
}

/// A sink line as `wpctl status` writes it: an optional `* ` default mark, the
/// ID's digits, a `.`, the name (which may hold `.` itself), and the volume
/// annotation `[vol:` ... `]`.
pub open spec fn sink_line_text(
    is_default: bool,
    digits: Seq<char>,
    name: Seq<char>,
    vol: Seq<char>,
) -> Seq<char> {
    (if is_default {
        seq!['*', ' ']
    } else {
        Seq::empty()
    }) + digits + seq!['.'] + name + volume_marker() + vol + seq![']']
}

/// A sink line, once its glyphs are gone, reads as the sink it describes: the
/// ID is the digits before the first `.`, the name is all the text after that
/// `.` up to the volume annotation, trimmed, whatever `.` it holds, and the
/// default mark is the leading `*`.
pub proof fn law_sink_line_fields(
    raw: Seq<char>,
    lead: Seq<char>,
    is_default: bool,
    digits: Seq<char>,
    name: Seq<char>,
    vol: Seq<char>,
)
    requires
        strip_glyphs(raw) == lead + sink_line_text(is_default, digits, name, vol),
        forall|i: int| 0 <= i < lead.len() ==> is_whitespace(#[trigger] lead[i]),
        digits.len() > 0,
        all_digits(digits),
        digits_value(digits) <= u32::MAX,
        trim(name).len() > 0,
        forall|i: int| 0 <= i < vol.len() ==> #[trigger] vol[i] != '[',
    ensures
        sink_line(raw) == Some(
            SinkEntry {
                id_text: digits,
                id: digits_value(digits) as u32,
                name: trim(name),
                is_default,
            },
        ),
{
    let tail = volume_marker() + vol + seq![']'];
    let core = digits + seq!['.'] + name + tail;
    let p = digits.len() as int;
    lemma_sink_content(raw, lead, is_default, digits, name, vol);
    lemma_sink_core(digits, name, tail);
    lemma_sink_name(name, vol);
    lemma_parse_u32_digits(digits);
    assert(is_digit(digits[0]));
    assert(is_digit(digits.last()));
    lemma_trim_keeps(digits);
    let content = trim(strip_glyphs(raw));
    let rest = if content[0] == '*' {
        trim_start(content.drop_first())
    } else {
        content
    };
    assert(rest == core);
    assert(find_char(rest, '.') == Some(p));
    assert(trim(rest.take(p)) == digits);
}

/// A sink line with no volume annotation reads the same way: the name is all
/// the text after the first `.`, trimmed, whatever `.` it holds.
pub proof fn law_sink_line_fields_without_volume(
    raw: Seq<char>,
    lead: Seq<char>,
    is_default: bool,
    digits: Seq<char>,
    name: Seq<char>,
)
    requires
        strip_glyphs(raw) == lead + (if is_default {
            seq!['*', ' ']
        } else {
            Seq::empty()
        }) + digits + seq!['.'] + name,
        forall|i: int| 0 <= i < lead.len() ==> is_whitespace(#[trigger] lead[i]),
        digits.len() > 0,
        all_digits(digits),
        digits_value(digits) <= u32::MAX,
        name.len() > 0,
        !is_whitespace(name.last()),
        trim(name).len() > 0,
        forall|i: int| 0 <= i < name.len() ==> #[trigger] name[i] != '[',
    ensures
        sink_line(raw) == Some(
            SinkEntry {
                id_text: digits,
                id: digits_value(digits) as u32,
                name: trim(name),
                is_default,
            },
        ),
{
    let star: Seq<char> = if is_default {
        seq!['*', ' ']
    } else {
        Seq::empty()
    };
    let core = digits + seq!['.'] + name;
    let body = star + core;
    let p = digits.len() as int;
    assert(lead + star + digits + seq!['.'] + name =~= lead + body);
    assert(is_digit(digits[0]));
    assert(core[0] == digits[0]);
    if is_default {
        assert(body[0] == '*');
    } else {
        assert(body[0] == digits[0]);
    }
    lemma_trim_start_after_whitespace(lead, body);
    assert(body.last() == name.last());
    lemma_trim_end_stops(body);
    assert(trim(strip_glyphs(raw)) == body);
    if is_default {
        assert(body.drop_first() =~= seq![' '] + core);
        let sp: Seq<char> = seq![' '];
        assert forall|i: int| 0 <= i < sp.len() implies is_whitespace(#[trigger] sp[i]) by {}
        lemma_trim_start_after_whitespace(sp, core);
    }
    lemma_sink_core(digits, name, Seq::empty());
    assert(name + Seq::<char>::empty() =~= name);
    assert(core =~= digits + seq!['.'] + name + Seq::<char>::empty());
    assert(is_digit(digits.last()));
    lemma_trim_keeps(digits);
    lemma_parse_u32_digits(digits);
    lemma_plain_name(name);
}

proof fn lemma_plain_name(name: Seq<char>)
    requires
        name.len() > 0,
        !is_whitespace(name.last()),
        forall|i: int| 0 <= i < name.len() ==> #[trigger] name[i] != '[',
    ensures
        rfind(trim(name), volume_marker()) is None,
{
    let ts = trim_start(name);
    lemma_trim_start_is_suffix_of(name);
    if ts.len() > 0 {
        assert(ts.last() == name.last());
        lemma_trim_end_stops(ts);
    }
    assert(trim(name) == ts);
    let marker = volume_marker();
    if ts.len() >= marker.len() {
        assert forall|k: int| -1 < k <= ts.len() - marker.len() implies !#[trigger] occurs_at(
            ts,
            marker,
            k,
        ) by {
            if occurs_at(ts, marker, k) {
                assert(ts.subrange(k, k + 5)[0] == ts[k]);
                assert(ts[k] == name[name.len() - ts.len() + k]);
            }
        }
        lemma_last_occurrence_skips(ts, marker, ts.len() - marker.len(), -1);
    }
}

proof fn lemma_sink_content(
    raw: Seq<char>,
    lead: Seq<char>,
    is_default: bool,
    digits: Seq<char>,
    name: Seq<char>,
    vol: Seq<char>,
)
    requires
        strip_glyphs(raw) == lead + sink_line_text(is_default, digits, name, vol),
        forall|i: int| 0 <= i < lead.len() ==> is_whitespace(#[trigger] lead[i]),
        digits.len() > 0,
        all_digits(digits),
    ensures
        ({
            let content = trim(strip_glyphs(raw));
            let core = digits + seq!['.'] + name + (volume_marker() + vol + seq![']']);
            &&& content.len() > 0
            &&& (content[0] == '*' <==> is_default)
            &&& (if content[0] == '*' {
                trim_start(content.drop_first())
            } else {
                content
            }) == core
        }),
{
    let tail = volume_marker() + vol + seq![']'];
    let core = digits + seq!['.'] + name + tail;
    let star: Seq<char> = if is_default {
        seq!['*', ' ']
    } else {
        Seq::empty()
    };
    let body = sink_line_text(is_default, digits, name, vol);
    assert(body =~= star + core);
    assert(is_digit(digits[0]));
    assert(core[0] == digits[0]);
    if is_default {
        assert(body[0] == '*');
    } else {
        assert(body[0] == digits[0]);
    }
    lemma_trim_start_after_whitespace(lead, body);
    assert(body.last() == ']');
    lemma_trim_end_stops(body);
    assert(trim(strip_glyphs(raw)) == body);
    if is_default {
        assert(body.drop_first() =~= seq![' '] + core);
        let sp: Seq<char> = seq![' '];
        assert forall|i: int| 0 <= i < sp.len() implies is_whitespace(#[trigger] sp[i]) by {}
        lemma_trim_start_after_whitespace(sp, core);
    }
}

proof fn lemma_sink_core(digits: Seq<char>, name: Seq<char>, tail: Seq<char>)
    requires
        all_digits(digits),
    ensures
        ({
            let core = digits + seq!['.'] + name + tail;
            let p = digits.len() as int;
            &&& find_char(core, '.') == Some(p)
            &&& core.take(p) == digits
            &&& core.skip(p + 1) == name + tail
        }),
{
    let core = digits + seq!['.'] + name + tail;
    let p = digits.len() as int;
    assert forall|j: int| 0 <= j < p implies core[j] != '.' by {
        assert(core[j] == digits[j]);
        assert(is_digit(digits[j]));
    }
    assert(core[p] == '.');
    lemma_find_char_at(core, '.', 0, p);
    assert(core.take(p) =~= digits);
    assert(core.skip(p + 1) =~= name + tail);
}

#[verifier::rlimit(40)]
proof fn lemma_sink_name(name: Seq<char>, vol: Seq<char>)
    requires
        trim(name).len() > 0,
        forall|i: int| 0 <= i < vol.len() ==> #[trigger] vol[i] != '[',
    ensures
        ({
            let name_raw = trim(name + (volume_marker() + vol + seq![']']));
            &&& rfind(name_raw, volume_marker()) == Some(trim_start(name).len() as int)
            &&& trim(name_raw.take(trim_start(name).len() as int)) == trim(name)
        }),
{
    let marker = volume_marker();
    let tail = marker + vol + seq![']'];
    lemma_trim_nonempty(name);
    lemma_trim_start_append(name, tail);
    let ts = trim_start(name);
    let name_raw = ts + tail;
    assert(name_raw.last() == ']');
    lemma_trim_end_stops(name_raw);
    assert(trim(name + tail) == name_raw);
    let q = ts.len() as int;
    assert(name_raw.subrange(q, q + 5) =~= marker);
    assert(occurs_at(name_raw, marker, q));
    assert forall|k: int| q < k <= name_raw.len() - marker.len() implies !#[trigger] occurs_at(
        name_raw,
        marker,
        k,
    ) by {
        if k < q + 5 {
            assert(name_raw[k] == marker[k - q]);
        } else if k < q + 5 + vol.len() {
            assert(name_raw[k] == vol[k - q - 5]);
        } else {
            assert(name_raw[k] == ']');
        }
        if occurs_at(name_raw, marker, k) {
            assert(name_raw.subrange(k, k + 5)[0] == name_raw[k]);
        }
    }
    lemma_last_occurrence_skips(name_raw, marker, name_raw.len() - marker.len(), q);
    assert(rfind(name_raw, marker) == Some(q));
    assert(name_raw.take(q) =~= ts);
    lemma_trim_start_idempotent(name);
}

/// The sinks that lines describe, each line read on its own, in order.
pub open spec fn read_sink_lines(ls: Seq<Seq<char>>) -> Seq<SinkEntry>
    decreases ls.len(),
{
    if ls.len() == 0 {
        Seq::empty()
    } else {
        match sink_line(ls[0]) {
            Some(e) => seq![e] + read_sink_lines(ls.drop_first()),
            None => read_sink_lines(ls.drop_first()),
        }
    }
}

/// A line that neither opens nor closes a section.
pub open spec fn is_section_body(l: Seq<char>) -> bool {
    !ends_with(strip_glyphs(l), sinks_header()) && !closes_section(l)
}

proof fn lemma_scan_body(body: Seq<Seq<char>>, after: Seq<Seq<char>>, closer: Seq<char>)
    requires
        forall|i: int| 0 <= i < body.len() ==> is_section_body(#[trigger] body[i]),
        !ends_with(strip_glyphs(closer), sinks_header()),
        closes_section(closer),
    ensures
        scan_status(body + seq![closer] + after, true) == read_sink_lines(body),
    decreases body.len(),
{
    let ls = body + seq![closer] + after;
    if body.len() == 0 {
        assert(ls[0] == closer);
    } else {
        assert(ls[0] == body[0]);
        assert(ls.drop_first() =~= body.drop_first() + seq![closer] + after);
        assert(is_section_body(body[0]));
        lemma_scan_body(body.drop_first(), after, closer);
    }
}

/// Inside the section that a `…Sinks:` header opens, every line gives exactly
/// the sink that it describes on its own, in order, and the next section
/// header ends the reading: nothing before the header or after the closing
/// header counts.
pub proof fn law_sinks_section(
    before: Seq<Seq<char>>,
    header: Seq<char>,
    body: Seq<Seq<char>>,
    closer: Seq<char>,
    after: Seq<Seq<char>>,
)
    requires
        forall|i: int| 0 <= i < before.len() ==> !ends_with(
            strip_glyphs(#[trigger] before[i]),
            sinks_header(),
        ),
        ends_with(strip_glyphs(header), sinks_header()),
        forall|i: int| 0 <= i < body.len() ==> is_section_body(#[trigger] body[i]),
        !ends_with(strip_glyphs(closer), sinks_header()),
        closes_section(closer),
    ensures
        scan_status(before + seq![header] + body + seq![closer] + after, false) == read_sink_lines(
            body,
        ),
    decreases before.len(),
{
    let ls = before + seq![header] + body + seq![closer] + after;
    if before.len() == 0 {
        assert(ls[0] == header);
        assert(ls.drop_first() =~= body + seq![closer] + after);
        lemma_scan_body(body, after, closer);
    } else {
        assert(ls[0] == before[0]);
        assert(!ends_with(strip_glyphs(before[0]), sinks_header()));
        assert(ls.drop_first() =~= before.drop_first() + seq![header] + body + seq![closer] + after);
        law_sinks_section(before.drop_first(), header, body, closer, after);
    }
}

proof fn lemma_sink_line_well_formed(raw: Seq<char>)
    ensures
        sink_line(raw) matches Some(e) ==> entry_well_formed(e),
{
    let content = trim(strip_glyphs(raw));
    if content.len() > 0 {
        let rest = if content[0] == '*' {
            trim_start(content.drop_first())
        } else {
            content
        };
        if let Some(p) = find_char(rest, '.') {
            let name_raw = trim(rest.skip(p + 1));
            lemma_trim_idempotent(rest.skip(p + 1));
            if let Some(q) = rfind(name_raw, volume_marker()) {
                lemma_trim_idempotent(name_raw.take(q));
            }
        }
    }
}

proof fn lemma_scan_well_formed(ls: Seq<Seq<char>>, in_section: bool)
    ensures
        forall|i: int|
            0 <= i < scan_status(ls, in_section).len() ==> entry_well_formed(
                #[trigger] scan_status(ls, in_section)[i],
            ),
    decreases ls.len(),
{
    if ls.len() > 0 {
        let rest = ls.drop_first();
        lemma_scan_well_formed(rest, true);
        lemma_scan_well_formed(rest, false);
        lemma_sink_line_well_formed(ls[0]);
        let r = scan_status(ls, in_section);
        let raw = ls[0];
        if ends_with(strip_glyphs(raw), sinks_header()) {
            assert(r == scan_status(rest, true));
        } else if in_section && closes_section(raw) {
            assert(r.len() == 0);
        } else if !in_section {
            assert(r == scan_status(rest, false));
        } else {
            match sink_line(raw) {
                Some(e) => {
                    assert(r == seq![e] + scan_status(rest, true));
                    assert forall|i: int| 0 <= i < r.len() implies entry_well_formed(
                        #[trigger] r[i],
                    ) by {
                        if i > 0 {
                            assert(r[i] == scan_status(rest, true)[i - 1]);
                        }
                    }
                },
                None => {
                    assert(r == scan_status(rest, true));
                },
            }
        }
    }
}

/// Every sink read from `wpctl status` has a non-empty name with no
/// whitespace at either end, and the ID that it was listed with.
pub proof fn law_status_sinks_well_formed(output: Seq<char>)
    ensures
        forall|i: int|
            0 <= i < status_entries(output).len() ==> entry_well_formed(
                #[trigger] status_entries(output)[i],
            ),
        forall|i: int|
            0 <= i < status_sinks(output).len() ==> {
                let s = #[trigger] status_sinks(output)[i];
                s.name.len() > 0 && trim(s.name) == s.name
            },
{
    lemma_scan_well_formed(lines(output), false);
    assert forall|i: int| 0 <= i < status_sinks(output).len() implies {
        let s = #[trigger] status_sinks(output)[i];
        s.name.len() > 0 && trim(s.name) == s.name
    } by {
        assert(entry_well_formed(status_entries(output)[i]));
    }
}

// ─── Parsing ─────────────────────────────────────────────────────────────────

/// A sink line as read, before it becomes one of the two `AudioSink` types.
pub struct ParsedSink {
    pub id_text: Vec<char>,
    pub id: u32,
    pub name: Vec<char>,
    pub is_default: bool,
}

impl View for ParsedSink {
    type V = SinkEntry;

    open spec fn view(&self) -> SinkEntry {
        SinkEntry {
            id_text: self.id_text@,
            id: self.id,
            name: self.name@,
            is_default: self.is_default,
        }
    }
}

pub open spec fn parsed_views(v: Seq<ParsedSink>) -> Seq<SinkEntry> {
    v.map_values(|p: ParsedSink| p@)
}

/// Strip PipeWire tree-drawing Unicode characters from a line so we are left
/// with plain content.
pub fn strip_tree_glyphs(line: &Vec<char>) -> (r: Vec<char>)
    ensures
        r@ == strip_glyphs(line@),
{
    let mut r: Vec<char> = Vec::new();
    let mut i: usize = 0;
    assert(line@.take(0) =~= Seq::<char>::empty());
    while i < line.len()
        invariant
            i <= line.len(),
            r@ == strip_glyphs(line@.take(i as int)),
        decreases line.len() - i,
    {
        let c = line[i];
        assert(line@.take(i + 1).drop_last() =~= line@.take(i as int));
        assert(line@.take(i + 1).last() == c);
        if !(c == '\u{2502}' || c == '\u{251C}' || c == '\u{2500}' || c == '\u{2514}' || c
            == '\u{2524}') {
            r.push(c);
        }
        i += 1;
    }
    assert(line@.take(line.len() as int) =~= line@);
    r
}

fn sink_line_exec(raw: &Vec<char>) -> (r: Option<ParsedSink>)
    ensures
        match r {
            Some(p) => sink_line(raw@) == Some(p@),
            None => sink_line(raw@) is None,
        },
{
    let stripped = strip_tree_glyphs(raw);
    let content = trim_chars(&stripped);
    if content.len() == 0 {
        return None;
    }
    let is_default = content[0] == '*';
    let rest = if is_default {
        let after = sub_chars(&content, 1, content.len());
        assert(after@ =~= content@.drop_first());
        trim_start_chars(&after)
    } else {
        content
    };
    let p = match find_char_exec(&rest, '.') {
        None => {
            return None;
        },
        Some(p) => p,
    };
    proof {
        lemma_find_char_in_bounds(rest@, '.', 0);
    }
    let id_token = sub_chars(&rest, 0, p);
    let id_text = trim_chars(&id_token);
    let after_id = sub_chars(&rest, p + 1, rest.len());
    let name_raw = trim_chars(&after_id);
    let marker = vec!['[', 'v', 'o', 'l', ':'];
    assert(marker@ =~= volume_marker());
    let name = match rfind_chars(&name_raw, &marker) {
        Some(q) => {
            proof {
                lemma_last_occurrence_in_bounds(name_raw@, volume_marker(), name_raw@.len() - volume_marker().len());
            }
            let before = sub_chars(&name_raw, 0, q);
            trim_chars(&before)
        },
        None => name_raw,
    };
    let id = match parse_u32_chars(&id_text) {
        None => {
            return None;
        },
        Some(id) => id,
    };
    if name.len() == 0 {
        return None;
    }
    Some(ParsedSink { id_text, id, name, is_default })
}

proof fn lemma_find_char_in_bounds(s: Seq<char>, c: char, i: int)
    ensures
        find_char_from(s, c, i) matches Some(p) ==> 0 <= i <= p < s.len() && s[p] == c,
    decreases s.len() - i,
{
    if 0 <= i < s.len() && s[i] != c {
        lemma_find_char_in_bounds(s, c, i + 1);
    }
}

proof fn lemma_last_occurrence_in_bounds(s: Seq<char>, pat: Seq<char>, i: int)
    ensures
        last_occurrence_upto(s, pat, i) matches Some(q) ==> 0 <= q <= i && occurs_at(s, pat, q),
    decreases i + 1,
{
    if i >= 0 && !occurs_at(s, pat, i) {
        lemma_last_occurrence_in_bounds(s, pat, i - 1);
    }
}

/// The sink entries of a `wpctl status` output, in the order of its lines.
pub(crate) fn scan_status_exec(output: &str) -> (r: Vec<ParsedSink>)
    ensures
        parsed_views(r@) == status_entries(output@),
{
    let chars = str_chars(output);
    let all = split_lines(&chars);
    let ghost ls = views(all@);
    let header = vec!['S', 'i', 'n', 'k', 's', ':'];
    let branch = vec!['\u{2500}', ' '];
    let colon = vec![':'];
    assert(header@ =~= sinks_header());
    assert(branch@ =~= branch_marker());
    assert(colon@ =~= seq![':']);
    let mut out: Vec<ParsedSink> = Vec::new();
    let mut in_section = false;
    let mut i: usize = 0;
    assert(ls.skip(0) =~= ls);
    assert(parsed_views(out@) =~= Seq::<SinkEntry>::empty());
    while i < all.len()
        invariant
            i <= all.len(),
            ls == views(all@),
            ls == lines(chars@),
            chars@ == output@,
            header@ == sinks_header(),
            branch@ == branch_marker(),
            colon@ == seq![':'],
            status_entries(output@) == parsed_views(out@) + scan_status(ls.skip(i as int), in_section),
        decreases all.len() - i,
    {
        let raw = &all[i];
        let ghost rest = ls.skip(i as int);
        assert(rest[0] == raw@);
        assert(rest.drop_first() =~= ls.skip(i + 1));
        let stripped = strip_tree_glyphs(raw);
        if ends_with_chars(&stripped, &header) {
            in_section = true;
        } else if in_section && contains_chars(raw, &branch) && ends_with_chars(&stripped, &colon) {
            assert(parsed_views(out@) + Seq::<SinkEntry>::empty() =~= parsed_views(out@));
            return out;
        } else if in_section {
            match sink_line_exec(raw) {
                Some(p) => {
                    let ghost before = parsed_views(out@);
                    let ghost pv = p@;
                    out.push(p);
                    assert(parsed_views(out@) =~= before.push(pv));
                    assert(before.push(pv) + scan_status(ls.skip(i + 1), true) =~= before + (seq![pv]
                        + scan_status(ls.skip(i + 1), true)));
                },
                None => {},
            }
        }
        i += 1;
    }
    assert(ls.skip(i as int) =~= Seq::<Seq<char>>::empty());
    assert(parsed_views(out@) + Seq::<SinkEntry>::empty() =~= parsed_views(out@));
    out
}

/// Parse the text output of `wpctl status` and return every audio sink found
/// in the `Sinks:` section.
pub fn parse_sinks(output: &str) -> (sinks: Vec<AudioSink>)
    ensures
        sink_views(sinks@) == status_sinks(output@),
{
    let parsed = scan_status_exec(output);
    let mut sinks: Vec<AudioSink> = Vec::new();
    let mut i: usize = 0;
    while i < parsed.len()
        invariant
            i <= parsed.len(),
            parsed_views(parsed@) == status_entries(output@),
            sink_views(sinks@) == status_sinks(output@).take(i as int),
        decreases parsed.len() - i,
    {
        let p = &parsed[i];
        let sink = AudioSink { id: p.id, name: string_from_chars(&p.name), is_default: p.is_default };
        let ghost before = sink_views(sinks@);
        sinks.push(sink);
        assert(parsed_views(parsed@)[i as int] == p@);
        assert(status_sinks(output@)[i as int] == entry_sink(p@));
        assert(sink_views(sinks@) =~= before.push(entry_sink(p@)));
        assert(status_sinks(output@).take(i + 1) =~= status_sinks(output@).take(i as int).push(
            entry_sink(p@),
        ));
        i += 1;
    }
    assert(status_sinks(output@).take(i as int) =~= status_sinks(output@));
    sinks
}

} // verus!
