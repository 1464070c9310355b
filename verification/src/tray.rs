//! The tray icon's state and what it shows: its title, its context menu and
//! how choosing a sink or refreshing changes the sinks it holds. The status
//! notifier service that draws them and runs the commands stands outside.
use vstd::prelude::*;

use crate::text::string_from_chars;
use crate::wpctl::{sink_views, AudioSink, SinkView};

verus! {

// ─── Texts ───────────────────────────────────────────────────────────────────

/// `tray-id`: `audio-system-tray`.
pub open spec fn tray_id_text() -> Seq<char> {
    seq!['a', 'u', 'd', 'i', 'o', '-', 's', 'y', 's', 't', 'e', 'm', '-', 't', 'r', 'a', 'y']
}

/// `audio-volume-high`, the icon of the tray.
pub open spec fn tray_icon_text() -> Seq<char> {
    seq!['a', 'u', 'd', 'i', 'o', '-', 'v', 'o', 'l', 'u', 'm', 'e', '-', 'h', 'i', 'g', 'h']
}

/// `🔊 `, the start of the title.
pub open spec fn speaker_prefix() -> Seq<char> {
    seq!['\u{1F50A}', ' ']
}

/// `Audio Output`.
pub open spec fn audio_output_text() -> Seq<char> {
    seq!['A', 'u', 'd', 'i', 'o', ' ', 'O', 'u', 't', 'p', 'u', 't']
}

/// `(no audio sinks found)`.
pub open spec fn no_sinks_text() -> Seq<char> {
    seq![
        '(', 'n', 'o', ' ', 'a', 'u', 'd', 'i', 'o', ' ', 's', 'i', 'n', 'k', 's', ' ', 'f',
        'o', 'u', 'n', 'd', ')',
    ]
}

/// `↺  Refresh`.
pub open spec fn refresh_text() -> Seq<char> {
    seq!['\u{21BA}', ' ', ' ', 'R', 'e', 'f', 'r', 'e', 's', 'h']
}

/// `Quit`.
pub open spec fn quit_text() -> Seq<char> {
    seq!['Q', 'u', 'i', 't']
}

/// `application-exit`, the icon of the quit item.
pub open spec fn quit_icon_text() -> Seq<char> {
    seq![
        'a', 'p', 'p', 'l', 'i', 'c', 'a', 't', 'i', 'o', 'n', '-', 'e', 'x', 'i', 't',
    ]
}

/// `● ` before the default sink, two spaces before the others.
pub open spec fn default_indicator(is_default: bool) -> Seq<char> {
    if is_default {
        seq!['\u{25CF}', ' ']
    } else {
        seq![' ', ' ']
    }
}

// ─── Title ───────────────────────────────────────────────────────────────────

/// The index of the first default sink at or after `i`.
pub open spec fn first_default_from(sinks: Seq<SinkView>, i: int) -> Option<int>
    decreases sinks.len() - i,
{
    if i < 0 || i >= sinks.len() {
        None
    } else if sinks[i].is_default {
        Some(i)
    } else {
        first_default_from(sinks, i + 1)
    }
}

/// The index of the first default sink.
pub open spec fn first_default(sinks: Seq<SinkView>) -> Option<int> {
    first_default_from(sinks, 0)
}

/// The title: the name of the first default sink, or `Audio Output` when no
/// sink is the default.
pub open spec fn title_text(sinks: Seq<SinkView>) -> Seq<char> {
    match first_default(sinks) {
        Some(i) => speaker_prefix() + sinks[i].name,
        None => speaker_prefix() + audio_output_text(),
    }
}

// ─── Menu ────────────────────────────────────────────────────────────────────

/// What activating a menu item asks for.
#[derive(Debug, Clone, Copy, PartialEq, Eq, Structural)]
pub enum MenuAction {
    /// Make the sink with this ID the default.
    SelectSink(u32),
    /// Query the sinks again.
    Refresh,
    /// Leave the program.
    Quit,
}

/// One entry of the context menu.
#[derive(Debug, Clone)]
pub enum MenuEntry {
    /// A label that cannot be activated.
    Label(String),
    /// A separating line.
    Separator,
    /// An item that asks for `action` when activated.
    Item { label: String, icon: String, action: MenuAction },
}

/// What a [`MenuEntry`] holds, as sequences of characters.
pub enum EntryView {
    Label(Seq<char>),
    Separator,
    Item { label: Seq<char>, icon: Seq<char>, action: MenuAction },
}

impl View for MenuEntry {
    type V = EntryView;

    open spec fn view(&self) -> EntryView {
        match self {
            MenuEntry::Label(l) => EntryView::Label(l@),
            MenuEntry::Separator => EntryView::Separator,
            MenuEntry::Item { label, icon, action } => EntryView::Item {
                label: label@,
                icon: icon@,
                action: *action,
            },
        }
    }
}

pub open spec fn entry_views(v: Seq<MenuEntry>) -> Seq<EntryView> {
    v.map_values(|e: MenuEntry| e@)
}

/// The item that selects a sink: its name behind the default indicator.
pub open spec fn sink_item(s: SinkView) -> EntryView {
    EntryView::Item {
        label: default_indicator(s.is_default) + s.name,
        icon: Seq::empty(),
        action: MenuAction::SelectSink(s.id),
    }
}

/// The context menu: a heading, one item per sink (or a note that there is
/// none), then the refresh and quit items.
pub open spec fn menu_view(sinks: Seq<SinkView>) -> Seq<EntryView> {
    seq![EntryView::Label(audio_output_text()), EntryView::Separator] + (if sinks.len() == 0 {
        seq![EntryView::Label(no_sinks_text())]
    } else {
        sinks.map_values(|s: SinkView| sink_item(s))
    }) + seq![
        EntryView::Separator,
        EntryView::Item {
            label: refresh_text(),
            icon: Seq::empty(),
            action: MenuAction::Refresh,
        },
        EntryView::Item { label: quit_text(), icon: quit_icon_text(), action: MenuAction::Quit },
    ]
}

// ─── State changes ───────────────────────────────────────────────────────────

/// The sinks after `id` became the default: every sink with that ID is the
/// default, every other is not.
pub open spec fn with_default(sinks: Seq<SinkView>, id: u32) -> Seq<SinkView> {
    sinks.map_values(|s: SinkView| SinkView { id: s.id, name: s.name, is_default: s.id == id })
}

/// The state behind the tray icon: the most recently discovered sinks.
pub struct TrayState {
    pub sinks: Vec<AudioSink>,
}

impl TrayState {
    pub open spec fn sink_views(&self) -> Seq<SinkView> {
        sink_views(self.sinks@)
    }

    pub fn new(sinks: Vec<AudioSink>) -> (t: Self)
        ensures
            t.sinks@ == sinks@,
    {
        TrayState { sinks }
    }

    /// The identifier of the tray item.
    pub fn id(&self) -> (s: String)
        ensures
            s@ == tray_id_text(),
    {
        let cs = vec![
            'a', 'u', 'd', 'i', 'o', '-', 's', 'y', 's', 't', 'e', 'm', '-', 't', 'r', 'a', 'y',
        ];
        assert(cs@ =~= tray_id_text());
        string_from_chars(&cs)
    }

    /// The name of the tray icon.
    pub fn icon_name(&self) -> (s: String)
        ensures
            s@ == tray_icon_text(),
    {
        let cs = vec![
            'a', 'u', 'd', 'i', 'o', '-', 'v', 'o', 'l', 'u', 'm', 'e', '-', 'h', 'i', 'g', 'h',
        ];
        assert(cs@ =~= tray_icon_text());
        string_from_chars(&cs)
    }

    /// The title of the tray icon.
    pub fn title(&self) -> (s: String)
        ensures
            s@ == title_text(self.sink_views()),
    {
        let ghost sv = self.sink_views();
        let mut i: usize = 0;
        while i < self.sinks.len()
            invariant
                i <= self.sinks.len(),
                sv == self.sink_views(),
                first_default(sv) == first_default_from(sv, i as int),
            decreases self.sinks.len() - i,
        {
            assert(sv[i as int] == self.sinks@[i as int]@);
            if self.sinks[i].is_default {
                let cs = vec!['\u{1F50A}', ' '];
                let name = self.sinks[i].name.as_str();
                let mut t = string_from_chars(&cs);
                t.append(name);
                assert(t@ =~= speaker_prefix() + sv[i as int].name);
                return t;
            }
            i += 1;
        }
        let cs = vec![
            '\u{1F50A}', ' ', 'A', 'u', 'd', 'i', 'o', ' ', 'O', 'u', 't', 'p', 'u', 't',
        ];
        assert(cs@ =~= speaker_prefix() + audio_output_text());
        string_from_chars(&cs)
    }

    /// The context menu.
    pub fn menu(&self) -> (m: Vec<MenuEntry>)
        ensures
            entry_views(m@) == menu_view(self.sink_views()),
    {
        let ghost sv = self.sink_views();
        let heading = vec!['A', 'u', 'd', 'i', 'o', ' ', 'O', 'u', 't', 'p', 'u', 't'];
        assert(heading@ =~= audio_output_text());
        let mut m: Vec<MenuEntry> = Vec::new();
        m.push(MenuEntry::Label(string_from_chars(&heading)));
        m.push(MenuEntry::Separator);
        let ghost head = seq![EntryView::Label(audio_output_text()), EntryView::Separator];
        assert(entry_views(m@) =~= head);
        let ghost middle = if sv.len() == 0 {
            seq![EntryView::Label(no_sinks_text())]
        } else {
            sv.map_values(|s: SinkView| sink_item(s))
        };
        if self.sinks.len() == 0 {
            let note = vec![
                '(', 'n', 'o', ' ', 'a', 'u', 'd', 'i', 'o', ' ', 's', 'i', 'n', 'k', 's', ' ',
                'f', 'o', 'u', 'n', 'd', ')',
            ];
            assert(note@ =~= no_sinks_text());
            m.push(MenuEntry::Label(string_from_chars(&note)));
            assert(entry_views(m@) =~= head + middle);
        } else {
            let mut i: usize = 0;
            while i < self.sinks.len()
                invariant
                    i <= self.sinks.len(),
                    sv == self.sink_views(),
                    sv.len() > 0,
                    middle == sv.map_values(|s: SinkView| sink_item(s)),
                    entry_views(m@) == head + middle.take(i as int),
                decreases self.sinks.len() - i,
            {
                let sink = &self.sinks[i];
                assert(sv[i as int] == sink@);
                let indicator = if sink.is_default {
                    vec!['\u{25CF}', ' ']
                } else {
                    vec![' ', ' ']
                };
                let mut label = string_from_chars(&indicator);
                label.append(sink.name.as_str());
                let icon = String::new();
                let entry = MenuEntry::Item { label, icon, action: MenuAction::SelectSink(sink.id) };
                let ghost ev = entry@;
                let ghost before = entry_views(m@);
                m.push(entry);
                assert(ev == sink_item(sv[i as int]));
                assert(entry_views(m@) =~= before.push(ev));
                assert(middle.take(i + 1) =~= middle.take(i as int).push(ev));
                i += 1;
            }
            assert(middle.take(i as int) =~= middle);
        }
        let refresh = vec!['\u{21BA}', ' ', ' ', 'R', 'e', 'f', 'r', 'e', 's', 'h'];
        let quit = vec!['Q', 'u', 'i', 't'];
        let exit_icon = vec![
            'a', 'p', 'p', 'l', 'i', 'c', 'a', 't', 'i', 'o', 'n', '-', 'e', 'x', 'i', 't',
        ];
        assert(refresh@ =~= refresh_text());
        assert(quit@ =~= quit_text());
        assert(exit_icon@ =~= quit_icon_text());
        let ghost before = entry_views(m@);
        m.push(MenuEntry::Separator);
        m.push(
            MenuEntry::Item {
                label: string_from_chars(&refresh),
                icon: String::new(),
                action: MenuAction::Refresh,
            },
        );
        m.push(
            MenuEntry::Item {
                label: string_from_chars(&quit),
                icon: string_from_chars(&exit_icon),
                action: MenuAction::Quit,
            },
        );
        assert(entry_views(m@) =~= before + seq![
            EntryView::Separator,
            EntryView::Item {
                label: refresh_text(),
                icon: Seq::empty(),
                action: MenuAction::Refresh,
            },
            EntryView::Item { label: quit_text(), icon: quit_icon_text(), action: MenuAction::Quit },
        ]);
        m
    }

    /// Record that the sink `id` has become the default (after `wpctl
    /// set-default` succeeded), without waiting for `wpctl status` to show it.
    pub fn mark_default(&mut self, id: u32)
        ensures
            final(self).sink_views() == with_default(old(self).sink_views(), id),
    {
        let ghost old_views = self.sink_views();
        let mut marked: Vec<AudioSink> = Vec::new();
        let mut i: usize = 0;
        while i < self.sinks.len()
            invariant
                i <= self.sinks.len(),
                old_views == sink_views(self.sinks@),
                sink_views(marked@) == with_default(old_views, id).take(i as int),
            decreases self.sinks.len() - i,
        {
            let s = &self.sinks[i];
            let ghost before = sink_views(marked@);
            let updated = AudioSink { id: s.id, name: s.name.clone(), is_default: s.id == id };
            marked.push(updated);
            assert(old_views[i as int] == s@);
            assert(sink_views(marked@) =~= before.push(with_default(old_views, id)[i as int]));
            assert(with_default(old_views, id).take(i + 1) =~= with_default(old_views, id).take(
                i as int,
            ).push(with_default(old_views, id)[i as int]));
            i += 1;
        }
        assert(with_default(old_views, id).take(i as int) =~= with_default(old_views, id));
        self.sinks = marked;
    }

    /// Take the outcome of `wpctl set-default id`, run for a menu item: on
    /// success the sink `id` is marked the default and the status bar must be
    /// told (`true`); on failure nothing changes (`false`).
    pub fn after_set_default(&mut self, id: u32, succeeded: bool) -> (changed: bool)
        ensures
            changed == succeeded,
            succeeded ==> final(self).sink_views() == with_default(old(self).sink_views(), id),
            !succeeded ==> final(self).sinks@ == old(self).sinks@,
    {
        if succeeded {
            self.mark_default(id);
        }
        succeeded
    }

    /// Take the outcome of a refresh: the sinks that `wpctl status` gave, or
    /// `None` when it failed. New sinks replace the old and the status bar must
    /// be told (`true`); a failure changes nothing (`false`).
    pub fn after_refresh(&mut self, fresh: Option<Vec<AudioSink>>) -> (changed: bool)
        ensures
            changed == (fresh is Some),
            match fresh {
                Some(f) => final(self).sinks@ == f@,
                None => final(self).sinks@ == old(self).sinks@,
            },
    {
        match fresh {
            Some(f) => {
                self.refresh(f);
                true
            },
            None => false,
        }
    }

    /// Replace the sinks with a freshly discovered list.
    pub fn refresh(&mut self, fresh: Vec<AudioSink>)
        ensures
            final(self).sinks@ == fresh@,
    {
        self.sinks = fresh;
    }
}

// ─── Laws ────────────────────────────────────────────────────────────────────

/// The index of the first sink at or after `i` whose ID is `id`.
pub open spec fn first_with_id_from(sinks: Seq<SinkView>, id: u32, i: int) -> Option<int>
    decreases sinks.len() - i,
{
    if i < 0 || i >= sinks.len() {
        None
    } else if sinks[i].id == id {
        Some(i)
    } else {
        first_with_id_from(sinks, id, i + 1)
    }
}

proof fn lemma_first_default_after_marking(sinks: Seq<SinkView>, id: u32, i: int)
    ensures
        first_default_from(with_default(sinks, id), i) == first_with_id_from(sinks, id, i),
        first_with_id_from(sinks, id, i) matches Some(k) ==> 0 <= k < sinks.len(),
    decreases sinks.len() - i,
{
    if 0 <= i < sinks.len() && sinks[i].id != id {
        lemma_first_default_after_marking(sinks, id, i + 1);
    }
}

/// Marking a sink the default twice is marking it once.
pub proof fn law_mark_default_idempotent(sinks: Seq<SinkView>, id: u32)
    ensures
        with_default(with_default(sinks, id), id) == with_default(sinks, id),
{
    assert(with_default(with_default(sinks, id), id) =~= with_default(sinks, id));
}

/// Once a sink has been marked the default, the title names it (the first
/// sink with that ID); when no sink has the ID, the title is `Audio Output`.
pub proof fn law_title_after_marking(sinks: Seq<SinkView>, id: u32)
    ensures
        title_text(with_default(sinks, id)) == (match first_with_id_from(sinks, id, 0) {
            Some(k) => speaker_prefix() + sinks[k].name,
            None => speaker_prefix() + audio_output_text(),
        }),
{
    lemma_first_default_after_marking(sinks, id, 0);
    if let Some(k) = first_with_id_from(sinks, id, 0) {
        assert(with_default(sinks, id)[k].name == sinks[k].name);
    }
}

/// When the IDs are distinct, marking the sink at `k` leaves it the one and
/// only default.
pub proof fn law_single_default(sinks: Seq<SinkView>, k: int)
    requires
        0 <= k < sinks.len(),
        forall|i: int, j: int|
            0 <= i < sinks.len() && 0 <= j < sinks.len() && i != j ==> #[trigger] sinks[i].id
                != #[trigger] sinks[j].id,
    ensures
        forall|i: int|
            0 <= i < sinks.len() ==> (#[trigger] with_default(sinks, sinks[k].id)[i]).is_default
                == (i == k),
{
}

/// The menu holds, between its heading and its last three entries, one item
/// per sink in order, each selecting that sink's ID and marked `● ` exactly
/// when the sink is the default.
pub proof fn law_menu_items_follow_sinks(sinks: Seq<SinkView>)
    requires
        sinks.len() > 0,
    ensures
        menu_view(sinks).len() == sinks.len() + 5,
        forall|i: int|
            0 <= i < sinks.len() ==> #[trigger] menu_view(sinks)[i + 2] == (EntryView::Item {
                label: default_indicator(sinks[i].is_default) + sinks[i].name,
                icon: Seq::empty(),
                action: MenuAction::SelectSink(sinks[i].id),
            }),
{
    assert forall|i: int| 0 <= i < sinks.len() implies (#[trigger] menu_view(sinks)[i + 2]
        == sink_item(sinks[i])) by {
        let items = sinks.map_values(|s: SinkView| sink_item(s));
        let head = seq![EntryView::Label(audio_output_text()), EntryView::Separator];
        assert((head + items)[i + 2] == items[i]);
    }
}

/// Marking a sink the default changes only the default marks: the same sinks
/// in the same order, each keeping its ID and name, marked exactly when its ID
/// is the chosen one.
pub proof fn law_mark_default_keeps_sinks(sinks: Seq<SinkView>, id: u32)
    ensures
        with_default(sinks, id).len() == sinks.len(),
        forall|i: int|
            0 <= i < sinks.len() ==> {
                let m = #[trigger] with_default(sinks, id)[i];
                &&& m.id == sinks[i].id
                &&& m.name == sinks[i].name
                &&& m.is_default == (sinks[i].id == id)
            },
{
}

/// Whatever the sinks, the menu opens with the `Audio Output` heading and a
/// separator, and ends with a separator, the Refresh item (which asks for a
/// refresh) and the Quit item (which asks to quit); with no sink, the one
/// entry between them is the `(no audio sinks found)` label.
pub proof fn law_menu_frame(sinks: Seq<SinkView>)
    ensures
        ({
            let m = menu_view(sinks);
            let n = m.len();
            &&& n == (if sinks.len() == 0 {
                1
            } else {
                sinks.len()
            }) + 5
            &&& m[0] == EntryView::Label(audio_output_text())
            &&& m[1] == EntryView::Separator
            &&& m[n - 3] == EntryView::Separator
            &&& m[n - 2] == (EntryView::Item {
                label: refresh_text(),
                icon: Seq::empty(),
                action: MenuAction::Refresh,
            })
            &&& m[n - 1] == (EntryView::Item {
                label: quit_text(),
                icon: quit_icon_text(),
                action: MenuAction::Quit,
            })
            &&& sinks.len() == 0 ==> m[2] == EntryView::Label(no_sinks_text())
        }),
{
    let m = menu_view(sinks);
    let head = seq![EntryView::Label(audio_output_text()), EntryView::Separator];
    let middle = if sinks.len() == 0 {
        seq![EntryView::Label(no_sinks_text())]
    } else {
        sinks.map_values(|s: SinkView| sink_item(s))
    };
    let end = seq![
        EntryView::Separator,
        EntryView::Item {
            label: refresh_text(),
            icon: Seq::empty(),
            action: MenuAction::Refresh,
        },
        EntryView::Item { label: quit_text(), icon: quit_icon_text(), action: MenuAction::Quit },
    ];
    assert(m == head + middle + end);
    let n = m.len();
    assert(m[n - 3] == end[0]);
    assert(m[n - 2] == end[1]);
    assert(m[n - 1] == end[2]);
    assert(m[0] == head[0]);
    assert(m[1] == head[1]);
    if sinks.len() == 0 {
        assert(m[2] == middle[0]);
    }
}

} // verus!
