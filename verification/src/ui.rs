//! The picker: which models it shows, and what a key does.
use crate::gguf::{bytes_text, format_bytes, ScanEntry, ScanView};
use crate::record::views;
use crate::report::{fmt_or_dash, kind_label, kind_text, or_dash, text_or, text_or_dash};
use crate::text;
use vstd::prelude::*;

verus! {

/// A text, or nothing.
pub open spec fn text_or_empty(value: Option<Seq<char>>) -> Seq<char> {
    match value {
        Some(s) => s,
        None => ""@,
    }
}

/// What a search looks through.
pub open spec fn haystack(e: ScanView) -> Seq<char> {
    text::lowered(
        e.file_name + " "@ + e.path + " "@ + text_or_empty(e.quant) + " "@ + text_or_empty(
            e.architecture,
        ),
    )
}

/// The search shows the entry: one without a word in it shows every entry.
pub open spec fn shows(search: Seq<char>, e: ScanView) -> bool {
    text::trim(search).len() == 0 || text::occurs(haystack(e), text::lowered(search))
}

/// The places of the entries among the first `n` that a search shows.
pub open spec fn shown(entries: Seq<ScanView>, search: Seq<char>, n: nat) -> Seq<int>
    decreases n,
{
    if n == 0 {
        seq![]
    } else {
        let before = shown(entries, search, (n - 1) as nat);
        if shows(search, entries[n - 1]) {
            before.push(n - 1)
        } else {
            before
        }
    }
}

/// What is shown matches the search, stands in its own order, and nothing
/// that matches is left out.
pub proof fn searches_are_exact(entries: Seq<ScanView>, search: Seq<char>, n: nat)
    requires
        n <= entries.len(),
    ensures
        forall|k: int|
            0 <= k < shown(entries, search, n).len() ==> 0 <= #[trigger] shown(
                entries,
                search,
                n,
            )[k] < n && shows(search, entries[shown(entries, search, n)[k]]),
        forall|j: int, k: int|
            0 <= j < k < shown(entries, search, n).len() ==> #[trigger] shown(
                entries,
                search,
                n,
            )[j] < #[trigger] shown(entries, search, n)[k],
        forall|i: int|
            0 <= i < n && shows(search, #[trigger] entries[i]) ==> shown(
                entries,
                search,
                n,
            ).contains(i),
    decreases n,
{
    if n > 0 {
        searches_are_exact(entries, search, (n - 1) as nat);
        let before = shown(entries, search, (n - 1) as nat);
        let all = shown(entries, search, n);
        assert forall|i: int| 0 <= i < n && shows(search, #[trigger] entries[i]) implies all.contains(
            i,
        ) by {
            if i < n - 1 {
                assert(before.contains(i));
                let k = choose|k: int| 0 <= k < before.len() && before[k] == i;
                assert(all[k] == i);
            } else {
                assert(all.last() == i);
            }
        }
    }
}

/// A search goes by its letters whatever their case, and one with more at its
/// end shows nothing that it does not show without.
pub proof fn longer_searches_narrow(search: Seq<char>, more: Seq<char>, e: ScanView)
    ensures
        shows(text::lowered(search), e) == shows(search, e),
        shows(search + more, e) ==> shows(search, e),
{
    let low = text::lowered(search);
    let long = search + more;
    text::trim_leaves_nothing(search);
    text::trim_leaves_nothing(low);
    text::trim_leaves_nothing(long);
    assert(text::lowered(low) =~= low);
    assert forall|i: int| 0 <= i < search.len() implies text::is_white(#[trigger] low[i])
        == text::is_white(search[i]) by {}
    if forall|i: int| 0 <= i < low.len() ==> text::is_white(#[trigger] low[i]) {
        assert forall|i: int| 0 <= i < search.len() implies text::is_white(
            #[trigger] search[i],
        ) by {
            assert(text::is_white(low[i]));
        }
    }
    if text::trim(long).len() == 0 {
        assert forall|i: int| 0 <= i < search.len() implies text::is_white(
            #[trigger] search[i],
        ) by {
            assert(text::is_white(long[i]));
        }
    } else if shows(long, e) {
        let hay = haystack(e);
        let pat = text::lowered(long);
        let i = choose|i: int| text::occurs_at(hay, pat, i);
        assert(hay.subrange(i, i + low.len()) =~= low) by {
            assert(hay.subrange(i, i + pat.len()) == pat);
            assert forall|k: int| 0 <= k < low.len() implies hay[i + k] == low[k] by {
                assert(hay.subrange(i, i + pat.len())[k] == pat[k]);
                assert(long[k] == search[k]);
            }
        }
        assert(text::occurs_at(hay, low, i));
    }
}

fn or_empty(value: &Option<String>) -> (r: String)
    ensures
        r@ == text_or_empty(text::opt_text(*value)),
{
    match value {
        Some(s) => s.clone(),
        None => "".to_string(),
    }
}

/// The places of the entries that a search shows.
pub fn filtered_indices(entries: &Vec<ScanEntry>, search: &str) -> (r: Vec<usize>)
    ensures
        r@.len() == shown(views(entries@), search@, entries@.len()).len(),
        forall|k: int|
            0 <= k < r@.len() ==> (#[trigger] r@[k]) == shown(
                views(entries@),
                search@,
                entries@.len(),
            )[k],
        forall|k: int| 0 <= k < r@.len() ==> (#[trigger] r@[k]) < entries@.len(),
{
    let ghost all = views(entries@);
    let everything = text::to_chars(text::trimmed(search).as_str()).len() == 0;
    let lower = text::lowercase(search);
    let mut r: Vec<usize> = Vec::new();
    for i in 0..entries.len()
        invariant
            all == views(entries@),
            everything == (text::trim(search@).len() == 0),
            lower@ == text::lowered(search@),
            r@.len() == shown(all, search@, i as nat).len(),
            forall|k: int|
                0 <= k < r@.len() ==> (#[trigger] r@[k]) == shown(all, search@, i as nat)[k],
            forall|k: int| 0 <= k < r@.len() ==> (#[trigger] r@[k]) < i,
    {
        let e = &entries[i];
        proof {
            assert(all[i as int] == e@);
        }
        let mut words = e.file_name.clone();
        words.append(" ");
        words.append(e.path.as_str());
        words.append(" ");
        words.append(or_empty(&e.quant).as_str());
        words.append(" ");
        words.append(or_empty(&e.architecture).as_str());
        if everything || text::contains(text::lowercase(words.as_str()).as_str(), lower.as_str()) {
            r.push(i);
        }
    }
    r
}

/// A key.
#[derive(Clone, Copy, Debug, PartialEq)]
pub enum Key {
    Escape,
    Enter,
    Down,
    Up,
    Backspace,
    Char(char),
    Other,
}

/// What a key leads to.
#[derive(Clone, Copy, Debug, PartialEq)]
pub enum PickerAction {
    /// Go on.
    Continue,
    /// Leave without a choice.
    Quit,
    /// Leave with this entry, if there is one to choose.
    Choose(Option<usize>),
}

/// What is searched for, and which of the shown entries is selected.
#[derive(Debug)]
pub struct PickerState {
    pub search: String,
    pub selected: usize,
}

/// The search and the selection.
#[verifier::ext_equal]
pub struct PickerView {
    pub search: Seq<char>,
    pub selected: int,
}

impl View for PickerState {
    type V = PickerView;

    open spec fn view(&self) -> PickerView {
        PickerView { search: self.search@, selected: self.selected as int }
    }
}

/// A selection among `count` entries: the last one, where there are not as
/// many.
pub open spec fn settled(selected: int, count: int) -> int {
    if selected < count {
        selected
    } else if count > 0 {
        count - 1
    } else {
        0
    }
}

/// The state after a key, with `count` entries shown.
pub open spec fn pressed(s: PickerView, key: Key, count: int) -> PickerView {
    match key {
        Key::Down => PickerView { selected: settled(s.selected + 1, count), ..s },
        Key::Up => PickerView {
            selected: if s.selected > 0 {
                s.selected - 1
            } else {
                0
            },
            ..s
        },
        Key::Backspace => PickerView {
            search: if s.search.len() > 0 {
                s.search.drop_last()
            } else {
                s.search
            },
            selected: 0,
        },
        Key::Char(c) => if c == 'q' {
            s
        } else {
            PickerView { search: s.search.push(c), selected: 0 }
        },
        _ => s,
    }
}

impl PickerState {
    /// Nothing is searched for, and the first entry is selected.
    pub fn new() -> (r: PickerState)
        ensures
            r@ == (PickerView { search: seq![], selected: 0 }),
    {
        let r = PickerState { search: String::new(), selected: 0 };
        proof {
            assert(r@.search =~= seq![]);
        }
        r
    }

    /// Keeps the selection among `count` entries.
    pub fn settle(&mut self, count: usize)
        ensures
            final(self)@ == (PickerView {
                selected: settled(old(self)@.selected, count as int),
                ..old(self)@
            }),
    {
        if self.selected >= count {
            self.selected = if count > 0 {
                count - 1
            } else {
                0
            };
        }
    }

    /// What a key does, with these entries shown.
    pub fn press(&mut self, key: Key, filtered: &Vec<usize>) -> (r: PickerAction)
        ensures
            final(self)@ == pressed(old(self)@, key, filtered@.len() as int),
            r == (match key {
                Key::Escape => PickerAction::Quit,
                Key::Enter => PickerAction::Choose(
                    if old(self).selected < filtered@.len() {
                        Some(filtered@[old(self).selected as int])
                    } else {
                        None
                    },
                ),
                Key::Char(c) => if c == 'q' {
                    PickerAction::Quit
                } else {
                    PickerAction::Continue
                },
                _ => PickerAction::Continue,
            }),
    {
        match key {
            Key::Escape => PickerAction::Quit,
            Key::Enter => if self.selected < filtered.len() {
                PickerAction::Choose(Some(filtered[self.selected]))
            } else {
                PickerAction::Choose(None)
            },
            Key::Down => {
                let count = filtered.len();
                self.selected = if count == 0 {
                    0
                } else if self.selected < count - 1 {
                    self.selected + 1
                } else {
                    count - 1
                };
                PickerAction::Continue
            },
            Key::Up => {
                self.selected = if self.selected > 0 {
                    self.selected - 1
                } else {
                    0
                };
                PickerAction::Continue
            },
            Key::Backspace => {
                let chars = text::to_chars(self.search.as_str());
                if chars.len() > 0 {
                    let ghost before = self.search@;
                    self.search = text::slice_text(&chars, 0, chars.len() - 1);
                    proof {
                        assert(self.search@ =~= before.drop_last());
                    }
                }
                self.selected = 0;
                PickerAction::Continue
            },
            Key::Char(c) => if c == 'q' {
                PickerAction::Quit
            } else {
                self.search.push(c);
                self.selected = 0;
                PickerAction::Continue
            },
            Key::Other => PickerAction::Continue,
        }
    }
}

/// A key never leaves a selection that is out of reach: once settled among
/// the entries shown, it is one of them, or the first of none.
pub proof fn selections_stay_in_reach(s: PickerView, key: Key, count: int, next: int)
    requires
        0 <= s.selected,
        0 <= count,
        0 <= next,
    ensures
        0 <= settled(pressed(s, key, count).selected, next),
        next > 0 ==> settled(pressed(s, key, count).selected, next) < next,
        next == 0 ==> settled(pressed(s, key, count).selected, next) == 0,
{
}

/// What is shown of an entry.
pub open spec fn entry_cells(e: ScanView) -> Seq<Seq<char>> {
    seq![
        e.file_name,
        bytes_text(e.file_size_bytes as nat),
        text_or_dash(e.quant),
        kind_text(e.model_kind),
        match e.latest_recommendation {
            Some(label) => label,
            None => "no recommendation"@,
        },
    ]
}

/// What is shown of an entry.
pub fn entry_texts(e: &ScanEntry) -> (r: Vec<String>)
    ensures
        text::texts(r@) == entry_cells(e@),
{
    let mut r: Vec<String> = Vec::new();
    r.push(e.file_name.clone());
    r.push(format_bytes(e.file_size_bytes));
    r.push(text_or(&e.quant));
    r.push(kind_label(e.model_kind).to_string());
    r.push(
        match &e.latest_recommendation {
            Some(label) => label.clone(),
            None => "no recommendation".to_string(),
        },
    );
    proof {
        assert(text::texts(r@) =~= entry_cells(e@));
    }
    r
}

/// What is shown of the selected entry.
pub open spec fn detail_text(e: ScanView) -> Seq<char> {
    (match e.latest_recommendation {
        Some(label) => label,
        None => "no saved recommendation"@,
    }) + "\narch: "@ + text_or_dash(e.architecture) + "  ctx: "@ + or_dash(e.native_context)
        + "  path: "@ + e.path
}

/// The status below the list.
pub fn status_text(entries: &Vec<ScanEntry>, filtered: &Vec<usize>, selected: usize) -> (r: String)
    requires
        forall|k: int| 0 <= k < filtered@.len() ==> (#[trigger] filtered@[k]) < entries@.len(),
    ensures
        r@ == (if selected < filtered@.len() {
            detail_text(views(entries@)[filtered@[selected as int] as int])
        } else {
            "No matches"@
        }) + "\nEnter select  arrows move  q quit"@,
{
    let mut r = if selected < filtered.len() {
        let e = &entries[filtered[selected]];
        let mut detail = match &e.latest_recommendation {
            Some(label) => label.clone(),
            None => "no saved recommendation".to_string(),
        };
        detail.append("\narch: ");
        detail.append(text_or(&e.architecture).as_str());
        detail.append("  ctx: ");
        detail.append(fmt_or_dash(e.native_context).as_str());
        detail.append("  path: ");
        detail.append(e.path.as_str());
        detail
    } else {
        "No matches".to_string()
    };
    r.append("\nEnter select  arrows move  q quit");
    r
}

/// What is typed can be taken back: after a character and a backspace the search
/// is the same.
pub proof fn typing_can_be_taken_back(s: PickerView, c: char, count: int)
    requires
        c != 'q',
    ensures
        ({
            let typed = pressed(s, Key::Char(c), count);
            &&& typed.search == s.search.push(c)
            &&& typed.selected == 0
            &&& pressed(typed, Key::Backspace, count).search == s.search
        }),
{
    assert(s.search.push(c).drop_last() =~= s.search);
}

/// One step down and one up lead back, as long as there is an entry below; a
/// step down goes to the next entry and stays on the last.
pub proof fn steps_lead_back(s: PickerView, count: int)
    requires
        0 <= s.selected < count,
    ensures
        s.selected + 1 < count ==> pressed(s, Key::Down, count).selected == s.selected + 1,
        s.selected + 1 == count ==> pressed(s, Key::Down, count).selected == s.selected,
        s.selected > 0 ==> pressed(s, Key::Up, count).selected == s.selected - 1,
        s.selected == 0 ==> pressed(s, Key::Up, count).selected == 0,
        s.selected + 1 < count ==> pressed(pressed(s, Key::Down, count), Key::Up, count) == s,
        pressed(s, Key::Down, count).search == s.search,
        pressed(s, Key::Up, count).search == s.search,
{
}

} // verus!
