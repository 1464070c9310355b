//! The two audio backends, `wpctl` (PipeWire / WirePlumber) and `pactl`
//! (PulseAudio or pipewire-pulse): how their output is read into
//! [`AudioSink`]s, how the default sink is found in `pactl`'s answers, and in
//! which order the backends are tried.
use vstd::prelude::*;

use crate::text::{
    chars_eq, lines, split_lines, starts_with, starts_with_chars, str_chars, string_from_chars,
    sub_chars, trim, trim_chars, views,
};
use crate::text::parse_u32;
use crate::wpctl::{
    entry_well_formed, law_status_sinks_well_formed, parsed_views, scan_status_exec, status_entries,
    status_sinks, SinkEntry,
};

verus! {

// ─── Data types ──────────────────────────────────────────────────────────────

/// A single audio output sink discovered from the backend status.
#[derive(Debug, Clone, PartialEq, Eq)]
pub struct AudioSink {
    /// Unique identifier for the sink (numeric ID for wpctl, symbolic name for pactl).
    pub id: String,
    /// Human-readable device name.
    pub name: String,
    /// `true` when this is the current default sink.
    pub is_default: bool,
}

/// What an [`AudioSink`] holds, as sequences of characters.
pub struct SinkView {
    pub id: Seq<char>,
    pub name: Seq<char>,
    pub is_default: bool,
}

impl View for AudioSink {
    type V = SinkView;

    open spec fn view(&self) -> SinkView {
        SinkView { id: self.id@, name: self.name@, is_default: self.is_default }
    }
}

/// The views of a sequence of sinks.
pub open spec fn sink_views(v: Seq<AudioSink>) -> Seq<SinkView> {
    v.map_values(|s: AudioSink| s@)
}

/// The characters of an optional string.
pub open spec fn opt_str_view(o: Option<&str>) -> Option<Seq<char>> {
    match o {
        Some(s) => Some(s@),
        None => None,
    }
}

/// The characters of an optional `String`.
pub open spec fn opt_string_view(o: Option<String>) -> Option<Seq<char>> {
    match o {
        Some(s) => Some(s@),
        None => None,
    }
}

pub open spec fn opt_chars_view(o: Option<Vec<char>>) -> Option<Seq<char>> {
    match o {
        Some(v) => Some(v@),
        None => None,
    }
}

// ─── Wpctl Backend ───────────────────────────────────────────────────────────

/// The PipeWire backend, driven through `wpctl`.
pub struct WpctlBackend;

impl WpctlBackend {
    /// Identify the backend name.
    pub fn name(&self) -> (n: &'static str)
        ensures
            n@ == seq!['w', 'p', 'c', 't', 'l'],
    {
        proof {
            reveal_strlit("wpctl");
        }
        "wpctl"
    }
}

/// The sink that a `wpctl status` entry describes, with the ID as written.
pub open spec fn wpctl_entry_sink(e: SinkEntry) -> SinkView {
    SinkView { id: e.id_text, name: e.name, is_default: e.is_default }
}

/// The sinks of a whole `wpctl status` output, each with its ID as written.
pub open spec fn wpctl_sinks(output: Seq<char>) -> Seq<SinkView> {
    status_entries(output).map_values(|e: SinkEntry| wpctl_entry_sink(e))
}

/// Parse the text output of `wpctl status` and return every audio sink found.
pub fn parse_wpctl_sinks(output: &str) -> (sinks: Vec<AudioSink>)
    ensures
        sink_views(sinks@) == wpctl_sinks(output@),
{
    let parsed = scan_status_exec(output);
    let mut sinks: Vec<AudioSink> = Vec::new();
    let mut i: usize = 0;
    while i < parsed.len()
        invariant
            i <= parsed.len(),
            parsed_views(parsed@) == status_entries(output@),
            sink_views(sinks@) == wpctl_sinks(output@).take(i as int),
        decreases parsed.len() - i,
    {
        let p = &parsed[i];
        let sink = AudioSink {
            id: string_from_chars(&p.id_text),
            name: string_from_chars(&p.name),
            is_default: p.is_default,
        };
        let ghost before = sink_views(sinks@);
        sinks.push(sink);
        assert(parsed_views(parsed@)[i as int] == p@);
        assert(wpctl_sinks(output@)[i as int] == wpctl_entry_sink(p@));
        assert(sink_views(sinks@) =~= before.push(wpctl_entry_sink(p@)));
        assert(wpctl_sinks(output@).take(i + 1) =~= wpctl_sinks(output@).take(i as int).push(
            wpctl_entry_sink(p@),
        ));
        i += 1;
    }
    assert(wpctl_sinks(output@).take(i as int) =~= wpctl_sinks(output@));
    sinks
}

// ─── Pactl Backend ───────────────────────────────────────────────────────────

/// The PulseAudio backend, driven through `pactl`.
pub struct PactlBackend;

/// `Sink #`, the start of each sink block of `pactl list sinks`.
pub open spec fn sink_block_prefix() -> Seq<char> {
    seq!['S', 'i', 'n', 'k', ' ', '#']
}

/// `Name:`, the sink's symbolic name.
pub open spec fn name_prefix() -> Seq<char> {
    seq!['N', 'a', 'm', 'e', ':']
}

/// `Description:`, the sink's human-readable name.
pub open spec fn description_prefix() -> Seq<char> {
    seq!['D', 'e', 's', 'c', 'r', 'i', 'p', 't', 'i', 'o', 'n', ':']
}

/// `Default Sink:`, the line of `pactl info` that names the default sink.
pub open spec fn default_sink_prefix() -> Seq<char> {
    seq!['D', 'e', 'f', 'a', 'u', 'l', 't', ' ', 'S', 'i', 'n', 'k', ':']
}

/// The sink of a finished block: named by its description when it had one,
/// else by its symbolic name, and the default when that name is the default's.
pub open spec fn pactl_sink(
    id: Seq<char>,
    description: Option<Seq<char>>,
    default_sink: Option<Seq<char>>,
) -> SinkView {
    SinkView {
        id,
        name: match description {
            Some(d) => d,
            None => id,
        },
        is_default: default_sink == Some(id),
    }
}

/// The sinks found in `lines` of `pactl list sinks`, given the symbolic name
/// and the description read so far. A `Sink #` line closes the block before
/// it and clears both; the end of the text closes the last block. A block
/// without a `Name:` line gives no sink, and a `Sink #` line after it clears
/// nothing, so its description carries over to the next block.
pub open spec fn scan_pactl(
    lines: Seq<Seq<char>>,
    current: Option<Seq<char>>,
    description: Option<Seq<char>>,
    default_sink: Option<Seq<char>>,
) -> Seq<SinkView>
    decreases lines.len(),
{
    if lines.len() == 0 {
        match current {
            Some(id) => seq![pactl_sink(id, description, default_sink)],
            None => Seq::empty(),
        }
    } else {
        let t = trim(lines[0]);
        let rest = lines.drop_first();
        if starts_with(t, sink_block_prefix()) {
            match current {
                Some(id) => seq![pactl_sink(id, description, default_sink)] + scan_pactl(
                    rest,
                    None,
                    None,
                    default_sink,
                ),
                None => scan_pactl(rest, None, description, default_sink),
            }
        } else if starts_with(t, name_prefix()) {
            scan_pactl(rest, Some(trim(t.skip(5))), description, default_sink)
        } else if starts_with(t, description_prefix()) {
            scan_pactl(rest, current, Some(trim(t.skip(12))), default_sink)
        } else {
            scan_pactl(rest, current, description, default_sink)
        }
    }
}

/// The sinks of a whole `pactl list sinks` output.
pub open spec fn pactl_sinks(output: Seq<char>, default_sink: Option<Seq<char>>) -> Seq<SinkView> {
    scan_pactl(lines(output), None, None, default_sink)
}

fn pactl_sink_exec(id: Vec<char>, description: Option<Vec<char>>, default_sink: &Option<Vec<char>>) -> (s:
    AudioSink)
    ensures
        s@ == pactl_sink(id@, opt_chars_view(description), opt_chars_view(*default_sink)),
{
    let is_default = match default_sink {
        Some(d) => chars_eq(d, &id),
        None => false,
    };
    let name = match description {
        Some(d) => string_from_chars(&d),
        None => string_from_chars(&id),
    };
    AudioSink { id: string_from_chars(&id), name, is_default }
}

/// Parse the text output of `pactl list sinks`.
pub fn parse_pactl_sinks(output: &str, default_sink_name: Option<&str>) -> (sinks: Vec<AudioSink>)
    ensures
        sink_views(sinks@) == pactl_sinks(output@, opt_str_view(default_sink_name)),
{
    let default_sink: Option<Vec<char>> = match default_sink_name {
        Some(d) => Some(str_chars(d)),
        None => None,
    };
    let ghost dv = opt_str_view(default_sink_name);
    assert(opt_chars_view(default_sink) == dv);
    let chars = str_chars(output);
    let all = split_lines(&chars);
    let ghost ls = views(all@);
    let block = vec!['S', 'i', 'n', 'k', ' ', '#'];
    let name_pfx = vec!['N', 'a', 'm', 'e', ':'];
    let desc_pfx = vec!['D', 'e', 's', 'c', 'r', 'i', 'p', 't', 'i', 'o', 'n', ':'];
    assert(block@ =~= sink_block_prefix());
    assert(name_pfx@ =~= name_prefix());
    assert(desc_pfx@ =~= description_prefix());
    let mut sinks: Vec<AudioSink> = Vec::new();
    let mut current: Option<Vec<char>> = None;
    let mut description: Option<Vec<char>> = None;
    let mut i: usize = 0;
    assert(ls.skip(0) =~= ls);
    assert(sink_views(sinks@) =~= Seq::<SinkView>::empty());
    while i < all.len()
        invariant
            i <= all.len(),
            ls == views(all@),
            ls == lines(chars@),
            chars@ == output@,
            opt_chars_view(default_sink) == dv,
            block@ == sink_block_prefix(),
            name_pfx@ == name_prefix(),
            desc_pfx@ == description_prefix(),
            pactl_sinks(output@, dv) == sink_views(sinks@) + scan_pactl(
                ls.skip(i as int),
                opt_chars_view(current),
                opt_chars_view(description),
                dv,
            ),
        decreases all.len() - i,
    {
        let ghost rest = ls.skip(i as int);
        assert(rest[0] == all@[i as int]@);
        assert(rest.drop_first() =~= ls.skip(i + 1));
        let t = trim_chars(&all[i]);
        if starts_with_chars(&t, &block) {
            let taken = current;
            current = None;
            match taken {
                Some(id) => {
                    let ghost before = sink_views(sinks@);
                    let d = description;
                    description = None;
                    let sink = pactl_sink_exec(id, d, &default_sink);
                    let ghost sv = sink@;
                    sinks.push(sink);
                    assert(sink_views(sinks@) =~= before.push(sv));
                    assert(before.push(sv) + scan_pactl(ls.skip(i + 1), None, None, dv) =~= before
                        + (seq![sv] + scan_pactl(ls.skip(i + 1), None, None, dv)));
                },
                None => {},
            }
        } else if starts_with_chars(&t, &name_pfx) {
            let after = sub_chars(&t, 5, t.len());
            assert(after@ =~= t@.skip(5));
            current = Some(trim_chars(&after));
        } else if starts_with_chars(&t, &desc_pfx) {
            let after = sub_chars(&t, 12, t.len());
            assert(after@ =~= t@.skip(12));
            description = Some(trim_chars(&after));
        }
        i += 1;
    }
    assert(ls.skip(i as int) =~= Seq::<Seq<char>>::empty());
    match current {
        Some(id) => {
            let ghost before = sink_views(sinks@);
            let sink = pactl_sink_exec(id, description, &default_sink);
            let ghost sv = sink@;
            sinks.push(sink);
            assert(sink_views(sinks@) =~= before + seq![sv]);
        },
        None => {
            assert(sink_views(sinks@) + Seq::<SinkView>::empty() =~= sink_views(sinks@));
        },
    }
    sinks
}

/// The default sink named by `pactl get-default-sink`: its whole output,
/// trimmed, when that is not empty.
pub open spec fn queried_default_sink(stdout: Seq<char>) -> Option<Seq<char>> {
    if trim(stdout).len() > 0 {
        Some(trim(stdout))
    } else {
        None
    }
}

/// The default sink named in `lines` of `pactl info`: the trimmed rest of the
/// first line that starts with `Default Sink:` and has a non-empty rest.
pub open spec fn info_default_sink(lines: Seq<Seq<char>>) -> Option<Seq<char>>
    decreases lines.len(),
{
    if lines.len() == 0 {
        None
    } else if starts_with(lines[0], default_sink_prefix()) && trim(lines[0].skip(13)).len() > 0 {
        Some(trim(lines[0].skip(13)))
    } else {
        info_default_sink(lines.drop_first())
    }
}

impl PactlBackend {
    /// Identify the backend name.
    pub fn name(&self) -> (n: &'static str)
        ensures
            n@ == seq!['p', 'a', 'c', 't', 'l'],
    {
        proof {
            reveal_strlit("pactl");
        }
        "pactl"
    }

    /// The default sink name in the output of `pactl get-default-sink`
    /// (modern PulseAudio / pipewire-pulse).
    pub fn default_sink_from_query(stdout: &str) -> (name: Option<String>)
        ensures
            opt_string_view(name) == queried_default_sink(stdout@),
    {
        let chars = str_chars(stdout);
        let t = trim_chars(&chars);
        if t.len() > 0 {
            Some(string_from_chars(&t))
        } else {
            None
        }
    }

    /// The default sink name in the output of `pactl info`, the fallback for
    /// older systems.
    pub fn default_sink_from_info(info: &str) -> (name: Option<String>)
        ensures
            opt_string_view(name) == info_default_sink(lines(info@)),
    {
        let chars = str_chars(info);
        let all = split_lines(&chars);
        let ghost ls = views(all@);
        let prefix = vec!['D', 'e', 'f', 'a', 'u', 'l', 't', ' ', 'S', 'i', 'n', 'k', ':'];
        assert(prefix@ =~= default_sink_prefix());
        let mut i: usize = 0;
        assert(ls.skip(0) =~= ls);
        while i < all.len()
            invariant
                i <= all.len(),
                ls == views(all@),
                ls == lines(info@),
                prefix@ == default_sink_prefix(),
                info_default_sink(ls) == info_default_sink(ls.skip(i as int)),
            decreases all.len() - i,
        {
            let line = &all[i];
            assert(ls.skip(i as int)[0] == line@);
            assert(ls.skip(i as int).drop_first() =~= ls.skip(i + 1));
            if starts_with_chars(line, &prefix) {
                let after = sub_chars(line, 13, line.len());
                assert(after@ =~= line@.skip(13));
                let name = trim_chars(&after);
                if name.len() > 0 {
                    return Some(string_from_chars(&name));
                }
            }
            i += 1;
        }
        assert(ls.skip(i as int) =~= Seq::<Seq<char>>::empty());
        None
    }
}

// ─── Finding pactl's default sink ────────────────────────────────────────────

/// The two `pactl` commands that can name the default sink.
#[derive(Debug, Clone, Copy, PartialEq, Eq, Structural)]
pub enum PactlQuery {
    /// `pactl get-default-sink` (modern PulseAudio / pipewire-pulse).
    GetDefaultSink,
    /// `pactl info`, the fallback for older systems.
    Info,
}

/// Where the search for the default sink stands.
#[derive(Debug, Clone)]
pub enum DefaultSinkStep {
    /// Run this command next, and report its output if it succeeded.
    Run(PactlQuery),
    /// The default sink's name.
    Found(String),
    /// Neither command named a default sink.
    NotFound,
}

/// What a [`DefaultSinkStep`] holds, with the name as characters.
pub enum DefaultSinkStepView {
    Run(PactlQuery),
    Found(Seq<char>),
    NotFound,
}

impl View for DefaultSinkStep {
    type V = DefaultSinkStepView;

    open spec fn view(&self) -> DefaultSinkStepView {
        match self {
            DefaultSinkStep::Run(q) => DefaultSinkStepView::Run(*q),
            DefaultSinkStep::Found(n) => DefaultSinkStepView::Found(n@),
            DefaultSinkStep::NotFound => DefaultSinkStepView::NotFound,
        }
    }
}

/// The next step of the search, after the command just run (none at the
/// start) and its output when it succeeded: `get-default-sink` first, and
/// `info` only when that named no sink.
pub open spec fn default_sink_next(last: Option<(PactlQuery, Option<Seq<char>>)>) -> DefaultSinkStepView {
    match last {
        None => DefaultSinkStepView::Run(PactlQuery::GetDefaultSink),
        Some((PactlQuery::GetDefaultSink, output)) => match output {
            Some(out) => match queried_default_sink(out) {
                Some(n) => DefaultSinkStepView::Found(n),
                None => DefaultSinkStepView::Run(PactlQuery::Info),
            },
            None => DefaultSinkStepView::Run(PactlQuery::Info),
        },
        Some((PactlQuery::Info, output)) => match output {
            Some(out) => match info_default_sink(lines(out)) {
                Some(n) => DefaultSinkStepView::Found(n),
                None => DefaultSinkStepView::NotFound,
            },
            None => DefaultSinkStepView::NotFound,
        },
    }
}

/// The characters of a command and its output.
pub open spec fn query_view(last: Option<(PactlQuery, Option<&str>)>) -> Option<(PactlQuery, Option<Seq<char>>)> {
    match last {
        Some((q, out)) => Some((q, opt_str_view(out))),
        None => None,
    }
}

impl PactlBackend {
    /// Retrieve the default sink name: each call takes the command that the
    /// previous call asked for, with its output if it succeeded, and says what
    /// to do next.
    pub fn default_sink_step(last: Option<(PactlQuery, Option<&str>)>) -> (step: DefaultSinkStep)
        ensures
            step@ == default_sink_next(query_view(last)),
    {
        match last {
            None => DefaultSinkStep::Run(PactlQuery::GetDefaultSink),
            Some((PactlQuery::GetDefaultSink, output)) => match output {
                Some(out) => match PactlBackend::default_sink_from_query(out) {
                    Some(n) => DefaultSinkStep::Found(n),
                    None => DefaultSinkStep::Run(PactlQuery::Info),
                },
                None => DefaultSinkStep::Run(PactlQuery::Info),
            },
            Some((PactlQuery::Info, output)) => match output {
                Some(out) => match PactlBackend::default_sink_from_info(out) {
                    Some(n) => DefaultSinkStep::Found(n),
                    None => DefaultSinkStep::NotFound,
                },
                None => DefaultSinkStep::NotFound,
            },
        }
    }
}

/// Where the search for the default sink ends when `get-default-sink` and
/// `info` give these outputs (`None` for a command that failed).
pub open spec fn default_sink_outcome(query: Option<Seq<char>>, info: Option<Seq<char>>) -> DefaultSinkStepView {
    match default_sink_next(None) {
        DefaultSinkStepView::Run(PactlQuery::GetDefaultSink) => match default_sink_next(
            Some((PactlQuery::GetDefaultSink, query)),
        ) {
            DefaultSinkStepView::Run(PactlQuery::Info) => default_sink_next(
                Some((PactlQuery::Info, info)),
            ),
            d => d,
        },
        d => d,
    }
}

/// The name that `get-default-sink` gives is preferred; `info` is asked only
/// when that command failed or named nothing; the search always ends, after
/// at most two commands.
pub proof fn law_default_sink_order(query: Option<Seq<char>>, info: Option<Seq<char>>)
    ensures
        default_sink_next(None) == DefaultSinkStepView::Run(PactlQuery::GetDefaultSink),
        (query matches Some(q) && queried_default_sink(q) is Some) ==> default_sink_outcome(
            query,
            info,
        ) == DefaultSinkStepView::Found(queried_default_sink(query->0)->0),
        !(query matches Some(q) && queried_default_sink(q) is Some) ==> default_sink_outcome(
            query,
            info,
        ) == (match info {
            Some(i) => match info_default_sink(lines(i)) {
                Some(n) => DefaultSinkStepView::Found(n),
                None => DefaultSinkStepView::NotFound,
            },
            None => DefaultSinkStepView::NotFound,
        }),
        !(default_sink_outcome(query, info) is Run),
{
}

// ─── Laws of the readers ─────────────────────────────────────────────────────

/// The two readings of `wpctl status` (this module's, which keeps the ID as
/// text, and `wpctl::parse_sinks`, which keeps it as a number) agree: the same
/// sinks in the same order, with the same names and default marks, and each
/// ID text reads as the number.
pub proof fn law_wpctl_readings_agree(output: Seq<char>)
    ensures
        wpctl_sinks(output).len() == status_sinks(output).len(),
        forall|i: int|
            0 <= i < wpctl_sinks(output).len() ==> {
                let a = #[trigger] wpctl_sinks(output)[i];
                let b = status_sinks(output)[i];
                &&& a.name == b.name
                &&& a.is_default == b.is_default
                &&& parse_u32(a.id) == Some(b.id)
            },
{
    law_status_sinks_well_formed(output);
    assert forall|i: int| 0 <= i < wpctl_sinks(output).len() implies {
        let a = #[trigger] wpctl_sinks(output)[i];
        let b = status_sinks(output)[i];
        &&& a.name == b.name
        &&& a.is_default == b.is_default
        &&& parse_u32(a.id) == Some(b.id)
    } by {
        assert(entry_well_formed(status_entries(output)[i]));
    }
}

proof fn lemma_scan_pactl_defaults(
    ls: Seq<Seq<char>>,
    current: Option<Seq<char>>,
    description: Option<Seq<char>>,
    default_sink: Option<Seq<char>>,
)
    ensures
        forall|i: int|
            0 <= i < scan_pactl(ls, current, description, default_sink).len() ==> {
                let s = #[trigger] scan_pactl(ls, current, description, default_sink)[i];
                s.is_default == (default_sink == Some(s.id))
            },
    decreases ls.len(),
{
    let r = scan_pactl(ls, current, description, default_sink);
    if ls.len() == 0 {
        if let Some(id) = current {
            assert(r == seq![pactl_sink(id, description, default_sink)]);
            assert(r[0] == pactl_sink(id, description, default_sink));
        }
    } else {
        let t = trim(ls[0]);
        let rest = ls.drop_first();
        if starts_with(t, sink_block_prefix()) {
            match current {
                Some(id) => {
                    lemma_scan_pactl_defaults(rest, None, None, default_sink);
                    let tail = scan_pactl(rest, None, None, default_sink);
                    assert(r == seq![pactl_sink(id, description, default_sink)] + tail);
                    assert forall|i: int| 0 <= i < r.len() implies {
                        let s = #[trigger] r[i];
                        s.is_default == (default_sink == Some(s.id))
                    } by {
                        if i > 0 {
                            assert(r[i] == tail[i - 1]);
                        }
                    }
                },
                None => {
                    lemma_scan_pactl_defaults(rest, None, description, default_sink);
                    assert(r == scan_pactl(rest, None, description, default_sink));
                },
            }
        } else if starts_with(t, name_prefix()) {
            lemma_scan_pactl_defaults(rest, Some(trim(t.skip(5))), description, default_sink);
            assert(r == scan_pactl(rest, Some(trim(t.skip(5))), description, default_sink));
        } else if starts_with(t, description_prefix()) {
            lemma_scan_pactl_defaults(rest, current, Some(trim(t.skip(12))), default_sink);
            assert(r == scan_pactl(rest, current, Some(trim(t.skip(12))), default_sink));
        } else {
            lemma_scan_pactl_defaults(rest, current, description, default_sink);
            assert(r == scan_pactl(rest, current, description, default_sink));
        }
    }
}

/// A block of `pactl list sinks`: its `Sink #…` header line, its `Name:` line
/// and its `Description:` line.
pub struct PactlBlock {
    pub header: Seq<char>,
    pub name_line: Seq<char>,
    pub description_line: Seq<char>,
}

/// A block as the lines that `pactl list sinks` would print for it: the header
/// is any line that starts with `Sink #` once trimmed, whatever index follows;
/// the other two are trimmed lines with their keys.
pub open spec fn is_named_block(b: PactlBlock) -> bool {
    &&& starts_with(trim(b.header), seq!['S', 'i', 'n', 'k', ' ', '#'])
    &&& trim(b.name_line) == b.name_line
    &&& starts_with(b.name_line, seq!['N', 'a', 'm', 'e', ':'])
    &&& trim(b.description_line) == b.description_line
    &&& starts_with(
        b.description_line,
        seq!['D', 'e', 's', 'c', 'r', 'i', 'p', 't', 'i', 'o', 'n', ':'],
    )
}

/// The lines of a sequence of blocks, one block after the other.
pub open spec fn blocks_lines(blocks: Seq<PactlBlock>) -> Seq<Seq<char>>
    decreases blocks.len(),
{
    if blocks.len() == 0 {
        Seq::empty()
    } else {
        seq![blocks[0].header, blocks[0].name_line, blocks[0].description_line] + blocks_lines(
            blocks.drop_first(),
        )
    }
}

/// The sink a block describes: named by the text after `Description:`,
/// identified by the text after `Name:`, both trimmed.
pub open spec fn block_sink(b: PactlBlock, default_sink: Option<Seq<char>>) -> SinkView {
    let id = trim(b.name_line.skip(5));
    SinkView {
        id,
        name: trim(b.description_line.skip(12)),
        is_default: default_sink == Some(id),
    }
}

/// The sink that an unfinished block gives when it closes.
pub open spec fn closed_block(
    current: Option<Seq<char>>,
    description: Option<Seq<char>>,
    default_sink: Option<Seq<char>>,
) -> Seq<SinkView> {
    match current {
        Some(id) => seq![pactl_sink(id, description, default_sink)],
        None => Seq::empty(),
    }
}

proof fn lemma_scan_blocks(
    blocks: Seq<PactlBlock>,
    current: Option<Seq<char>>,
    description: Option<Seq<char>>,
    default_sink: Option<Seq<char>>,
)
    requires
        forall|i: int| 0 <= i < blocks.len() ==> is_named_block(#[trigger] blocks[i]),
    ensures
        scan_pactl(blocks_lines(blocks), current, description, default_sink) == closed_block(
            current,
            description,
            default_sink,
        ) + blocks.map_values(|b: PactlBlock| block_sink(b, default_sink)),
    decreases blocks.len(),
{
    let mapped = blocks.map_values(|b: PactlBlock| block_sink(b, default_sink));
    if blocks.len() == 0 {
        assert(mapped =~= Seq::<SinkView>::empty());
        assert(closed_block(current, description, default_sink) + mapped =~= closed_block(
            current,
            description,
            default_sink,
        ));
    } else {
        let b = blocks[0];
        let rest = blocks.drop_first();
        assert(is_named_block(b));
        let ls = blocks_lines(blocks);
        let l1 = seq![b.name_line, b.description_line] + blocks_lines(rest);
        let l2 = seq![b.description_line] + blocks_lines(rest);
        assert(ls[0] == b.header);
        assert(ls.drop_first() =~= l1);
        assert(l1[0] == b.name_line);
        assert(l1.drop_first() =~= l2);
        assert(l2[0] == b.description_line);
        assert(l2.drop_first() =~= blocks_lines(rest));
        let n = b.name_line;
        let ds = b.description_line;
        assert(n.subrange(0, 5)[0] == n[0]);
        assert(n[0] == 'N');
        assert(ds.subrange(0, 12)[0] == ds[0]);
        assert(ds[0] == 'D');
        if starts_with(n, sink_block_prefix()) {
            assert(n.subrange(0, 6)[0] == n[0]);
        }
        if starts_with(ds, sink_block_prefix()) {
            assert(ds.subrange(0, 6)[0] == ds[0]);
        }
        if starts_with(ds, name_prefix()) {
            assert(ds.subrange(0, 5)[0] == ds[0]);
        }
        assert(sink_block_prefix() =~= seq!['S', 'i', 'n', 'k', ' ', '#']);
        assert(name_prefix() =~= seq!['N', 'a', 'm', 'e', ':']);
        assert(description_prefix() =~= seq![
            'D', 'e', 's', 'c', 'r', 'i', 'p', 't', 'i', 'o', 'n', ':',
        ]);
        let id = trim(n.skip(5));
        let desc = trim(ds.skip(12));
        assert forall|i: int| 0 <= i < rest.len() implies is_named_block(#[trigger] rest[i]) by {
            assert(rest[i] == blocks[i + 1]);
        }
        lemma_scan_blocks(rest, Some(id), Some(desc), default_sink);
        let tail = rest.map_values(|b: PactlBlock| block_sink(b, default_sink));
        assert(closed_block(Some(id), Some(desc), default_sink) =~= seq![block_sink(b, default_sink)]);
        assert(mapped =~= seq![block_sink(b, default_sink)] + tail);
        let carried = match current {
            Some(_) => None,
            None => description,
        };
        assert(scan_pactl(l1, None, carried, default_sink) == scan_pactl(
            l2,
            Some(id),
            carried,
            default_sink,
        ));
        assert(scan_pactl(l2, Some(id), carried, default_sink) == scan_pactl(
            blocks_lines(rest),
            Some(id),
            Some(desc),
            default_sink,
        ));
        assert(scan_pactl(ls, current, description, default_sink) == closed_block(
            current,
            description,
            default_sink,
        ) + scan_pactl(l1, None, carried, default_sink));
        assert(closed_block(current, description, default_sink) + (seq![
            block_sink(b, default_sink),
        ] + tail) =~= closed_block(current, description, default_sink) + mapped);
    }
}

/// Every line that starts with `Sink #` opens a new block, whatever index
/// follows the `#`: text made of blocks that each have a `Name:` and a
/// `Description:` line gives one sink per block, in order, identified by its
/// name and named by its description.
pub proof fn law_pactl_blocks(output: Seq<char>, blocks: Seq<PactlBlock>, default_sink: Option<Seq<char>>)
    requires
        lines(output) == blocks_lines(blocks),
        forall|i: int| 0 <= i < blocks.len() ==> is_named_block(#[trigger] blocks[i]),
    ensures
        pactl_sinks(output, default_sink) == blocks.map_values(
            |b: PactlBlock| block_sink(b, default_sink),
        ),
        pactl_sinks(output, default_sink).len() == blocks.len(),
{
    lemma_scan_blocks(blocks, None, None, default_sink);
    assert(closed_block(None, None, default_sink) + blocks.map_values(
        |b: PactlBlock| block_sink(b, default_sink),
    ) =~= blocks.map_values(|b: PactlBlock| block_sink(b, default_sink)));
}

/// A line of `pactl info` that names the default sink: it starts with the
/// full `Default Sink:` key and has a non-empty value after it.
pub open spec fn names_default_sink(l: Seq<char>) -> bool {
    &&& starts_with(l, seq!['D', 'e', 'f', 'a', 'u', 'l', 't', ' ', 'S', 'i', 'n', 'k', ':'])
    &&& trim(l.skip(13)).len() > 0
}

/// The default sink read from `pactl info` is the trimmed value of the first
/// line that starts with the full `Default Sink:` key and has a value; lines
/// with other keys (`Default Source:`, `Default Sample Specification:`) never
/// give it; without such a line there is none.
pub proof fn law_info_default_sink(ls: Seq<Seq<char>>)
    ensures
        info_default_sink(ls) matches Some(n) ==> exists|i: int|
            0 <= i < ls.len() && #[trigger] names_default_sink(ls[i]) && n == trim(ls[i].skip(13))
                && forall|j: int| 0 <= j < i ==> !#[trigger] names_default_sink(ls[j]),
        info_default_sink(ls) is None ==> forall|i: int|
            0 <= i < ls.len() ==> !#[trigger] names_default_sink(ls[i]),
    decreases ls.len(),
{
    assert(default_sink_prefix() =~= seq![
        'D', 'e', 'f', 'a', 'u', 'l', 't', ' ', 'S', 'i', 'n', 'k', ':',
    ]);
    if ls.len() > 0 {
        let rest = ls.drop_first();
        law_info_default_sink(rest);
        if names_default_sink(ls[0]) {
            assert(info_default_sink(ls) == Some(trim(ls[0].skip(13))));
            assert(names_default_sink(ls[0]) && trim(ls[0].skip(13)) == trim(ls[0].skip(13))
                && forall|j: int| 0 <= j < 0 ==> !#[trigger] names_default_sink(ls[j]));
        } else {
            assert(info_default_sink(ls) == info_default_sink(rest));
            if let Some(n) = info_default_sink(ls) {
                let k = choose|i: int|
                    0 <= i < rest.len() && #[trigger] names_default_sink(rest[i]) && n == trim(
                        rest[i].skip(13),
                    ) && forall|j: int| 0 <= j < i ==> !#[trigger] names_default_sink(rest[j]);
                assert(ls[k + 1] == rest[k]);
                assert forall|j: int| 0 <= j < k + 1 implies !#[trigger] names_default_sink(ls[j]) by {
                    if j > 0 {
                        assert(ls[j] == rest[j - 1]);
                    }
                }
                assert(names_default_sink(ls[k + 1]));
            } else {
                assert forall|i: int| 0 <= i < ls.len() implies !#[trigger] names_default_sink(
                    ls[i],
                ) by {
                    if i > 0 {
                        assert(ls[i] == rest[i - 1]);
                    }
                }
            }
        }
    }
}

/// A sink read from `pactl list sinks` is marked the default exactly when its
/// symbolic name is the default sink's name; with no default name given, no
/// sink is marked.
pub proof fn law_pactl_default_marks(output: Seq<char>, default_sink: Option<Seq<char>>)
    ensures
        forall|i: int|
            0 <= i < pactl_sinks(output, default_sink).len() ==> {
                let s = #[trigger] pactl_sinks(output, default_sink)[i];
                s.is_default == (default_sink == Some(s.id))
            },
        default_sink is None ==> forall|i: int|
            0 <= i < pactl_sinks(output, default_sink).len()
                ==> !(#[trigger] pactl_sinks(output, default_sink)[i]).is_default,
{
    lemma_scan_pactl_defaults(lines(output), None, None, default_sink);
}

// ─── Auto-Detection ──────────────────────────────────────────────────────────

/// The audio backends, in the order in which they are tried.
#[derive(Debug, Clone, Copy, PartialEq, Eq, Structural)]
pub enum BackendKind {
    Wpctl,
    Pactl,
}

/// Where the detection of the available backend stands.
#[derive(Debug, Clone, Copy, PartialEq, Eq, Structural)]
pub enum Detection {
    /// Query this backend's sinks next, and report whether that succeeded.
    Probe(BackendKind),
    /// This backend answered: use it.
    Found(BackendKind),
    /// No backend answered.
    Unavailable,
}

/// The next step of the detection, after the probe just made (none at the start).
pub open spec fn detection_step(last_probe: Option<(BackendKind, bool)>) -> Detection {
    match last_probe {
        None => Detection::Probe(BackendKind::Wpctl),
        Some((BackendKind::Wpctl, true)) => Detection::Found(BackendKind::Wpctl),
        Some((BackendKind::Wpctl, false)) => Detection::Probe(BackendKind::Pactl),
        Some((BackendKind::Pactl, true)) => Detection::Found(BackendKind::Pactl),
        Some((BackendKind::Pactl, false)) => Detection::Unavailable,
    }
}

/// Try to detect the available audio backend on this system: wpctl first
/// (standard PipeWire/WirePlumber), then pactl (PulseAudio or pipewire-pulse
/// compatibility). Each call takes the outcome of the probe that the previous
/// call asked for, and says what to do next.
pub fn detect_backend(last_probe: Option<(BackendKind, bool)>) -> (d: Detection)
    ensures
        d == detection_step(last_probe),
{
    match last_probe {
        None => Detection::Probe(BackendKind::Wpctl),
        Some((BackendKind::Wpctl, true)) => Detection::Found(BackendKind::Wpctl),
        Some((BackendKind::Wpctl, false)) => Detection::Probe(BackendKind::Pactl),
        Some((BackendKind::Pactl, true)) => Detection::Found(BackendKind::Pactl),
        Some((BackendKind::Pactl, false)) => Detection::Unavailable,
    }
}

/// Whether the probe of a backend succeeds, given the outcomes of both.
pub open spec fn probe_outcome(kind: BackendKind, wpctl_ok: bool, pactl_ok: bool) -> bool {
    match kind {
        BackendKind::Wpctl => wpctl_ok,
        BackendKind::Pactl => pactl_ok,
    }
}

/// Where detection settles when each backend's probe has the given outcome:
/// the steps from the start, each probe answered, for as long as the steps ask
/// for one (two at most).
pub open spec fn detection_outcome(wpctl_ok: bool, pactl_ok: bool) -> Detection {
    match detection_step(None) {
        Detection::Probe(k1) => match detection_step(
            Some((k1, probe_outcome(k1, wpctl_ok, pactl_ok))),
        ) {
            Detection::Probe(k2) => detection_step(
                Some((k2, probe_outcome(k2, wpctl_ok, pactl_ok))),
            ),
            d => d,
        },
        d => d,
    }
}

/// Detection tries wpctl first and pactl only when wpctl failed; it settles on
/// the first backend that answered, or on none, after at most two probes.
pub proof fn law_detection_order(wpctl_ok: bool, pactl_ok: bool)
    ensures
        detection_step(None) == Detection::Probe(BackendKind::Wpctl),
        detection_step(Some((BackendKind::Wpctl, wpctl_ok))) == (if wpctl_ok {
            Detection::Found(BackendKind::Wpctl)
        } else {
            Detection::Probe(BackendKind::Pactl)
        }),
        detection_outcome(wpctl_ok, pactl_ok) == (if wpctl_ok {
            Detection::Found(BackendKind::Wpctl)
        } else if pactl_ok {
            Detection::Found(BackendKind::Pactl)
        } else {
            Detection::Unavailable
        }),
        !(detection_outcome(wpctl_ok, pactl_ok) is Probe),
{
}

/// A backend is settled on only right after a probe of it succeeded.
pub proof fn law_found_only_after_success(last_probe: Option<(BackendKind, bool)>, kind: BackendKind)
    ensures
        detection_step(last_probe) == Detection::Found(kind) ==> last_probe == Some((kind, true)),
{
}

} // verus!
