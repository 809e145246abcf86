//! Reading the whole state, saving preferences and clearing the last opened book.
use vstd::prelude::*;

use crate::state::{
    books_map, clone_opt_string, opt_view, AppState, AppStateView, BookRecord, UserPreferencesView,
};
use crate::text::{chars_eq, str_chars, to_chars};

verus! {

/// What `get_state` returns: the state and whether a corrupt state file was
/// set aside at start-up.
#[derive(Debug)]
pub struct GetStateResponse {
    pub state: AppState,
    pub state_recovered: bool,
}

/// A copy of the state.
pub fn clone_state(state: &AppState) -> (res: AppState)
    ensures
        res@ == state@,
        res.books@.len() == state.books@.len(),
        forall|i: int| 0 <= i < state.books@.len() ==> (#[trigger] res.books@[i]).0@ == state.books@[i].0@
            && res.books@[i].1@ == state.books@[i].1@,
        state.wf() ==> res.wf(),
{
    let mut books: Vec<(String, BookRecord)> = Vec::new();
    let mut i: usize = 0;
    while i < state.books.len()
        invariant
            i <= state.books@.len(),
            books@.len() == i,
            forall|j: int| 0 <= j < i ==> (#[trigger] books@[j]).0@ == state.books@[j].0@ && books@[j].1@ == state.books@[j].1@,
            books_map(books@) == books_map(state.books@.take(i as int)),
        decreases state.books@.len() - i,
    {
        let entry = (state.books[i].0.clone(), state.books[i].1.clone());
        let ghost prev = books@;
        books.push(entry);
        assert(books@.drop_last() =~= prev);
        assert(state.books@.take(i + 1).drop_last() =~= state.books@.take(i as int));
        i = i + 1;
    }
    assert(state.books@.take(i as int) =~= state.books@);
    AppState {
        last_opened: clone_opt_string(&state.last_opened),
        books,
        preferences: state.preferences.clone(),
    }
}

/// The state as the reader view receives it.
pub fn get_state(state: &AppState, state_recovered: bool) -> (res: GetStateResponse)
    ensures
        res.state@ == state@,
        res.state_recovered == state_recovered,
{
    GetStateResponse { state: clone_state(state), state_recovered }
}

/// What the reader's interface learned of a numeric preference value: its
/// `f32` bit pattern when it parses as `f32`, and whether that parsed value
/// (as an `Option<f32>`) equals the current font size and line height.
#[derive(Debug)]
pub struct ParsedNumber {
    pub value_bits: Option<u32>,
    pub same_as_font_size: bool,
    pub same_as_line_height: bool,
}

/// The reading mode a requested mode stands for: "scroll", or "paginated"
/// for anything else.
pub open spec fn reader_mode_for(value: Seq<char>) -> Seq<char> {
    if value == "scroll"@ {
        "scroll"@
    } else {
        "paginated"@
    }
}

/// The preferences after setting `key` to `value`, and whether they changed.
/// Unknown keys change nothing; a value equal to the current one changes
/// nothing.
pub open spec fn preference_update(p: UserPreferencesView, key: Seq<char>, value: Seq<char>, n: ParsedNumber) -> (UserPreferencesView, bool) {
    if key == "font_size"@ {
        if n.same_as_font_size {
            (p, false)
        } else {
            (UserPreferencesView { font_size_bits: n.value_bits, ..p }, true)
        }
    } else if key == "theme"@ {
        if p.theme == Some(value) {
            (p, false)
        } else {
            (UserPreferencesView { theme: Some(value), ..p }, true)
        }
    } else if key == "font_family"@ {
        if p.font_family == Some(value) {
            (p, false)
        } else {
            (UserPreferencesView { font_family: Some(value), ..p }, true)
        }
    } else if key == "line_height"@ {
        if n.same_as_line_height {
            (p, false)
        } else {
            (UserPreferencesView { line_height_bits: n.value_bits, ..p }, true)
        }
    } else if key == "text_align"@ {
        if p.text_align == Some(value) {
            (p, false)
        } else {
            (UserPreferencesView { text_align: Some(value), ..p }, true)
        }
    } else if key == "reader_mode"@ {
        let next = reader_mode_for(value);
        if p.reader_mode == Some(next) {
            (p, false)
        } else {
            (UserPreferencesView { reader_mode: Some(next), ..p }, true)
        }
    } else {
        (p, false)
    }
}

/// Whether an optional string holds exactly `value`.
fn opt_equals(o: &Option<String>, value: &[char]) -> (res: bool)
    ensures
        res == (opt_view(*o) == Some(value@)),
{
    match o {
        Some(s) => chars_eq(to_chars(s.as_str()).as_slice(), value),
        None => false,
    }
}

/// The reading mode that `value` stands for.
pub fn reader_mode_value(value: &str) -> (res: String)
    ensures
        res@ == reader_mode_for(value@),
{
    if chars_eq(to_chars(value).as_slice(), str_chars("scroll").as_slice()) {
        "scroll".to_string()
    } else {
        "paginated".to_string()
    }
}

/// Sets one preference. Returns whether the preferences changed.
pub fn save_preference(state: &mut AppState, key: String, value: String, number: ParsedNumber) -> (changed: bool)
    ensures
        ({
            let (p, c) = preference_update(old(state)@.preferences, key@, value@, number);
            &&& changed == c
            &&& final(state)@ == (AppStateView { preferences: p, ..old(state)@ })
        }),
        final(state).books@ == old(state).books@,
        key@ == "theme"@ ==> final(state)@.preferences.theme == Some(value@) && changed == (old(state)@.preferences.theme
            != Some(value@)),
        key@ == "font_family"@ ==> final(state)@.preferences.font_family == Some(value@) && changed == (old(
            state,
        )@.preferences.font_family != Some(value@)),
        key@ == "text_align"@ ==> final(state)@.preferences.text_align == Some(value@) && changed == (old(
            state,
        )@.preferences.text_align != Some(value@)),
{
    proof {
        law_preference_update_sets(state@.preferences, key@, value@, number);
    }
    let k = to_chars(key.as_str());
    let v = to_chars(value.as_str());
    if chars_eq(k.as_slice(), str_chars("font_size").as_slice()) {
        if number.same_as_font_size {
            false
        } else {
            state.preferences.font_size_bits = number.value_bits;
            true
        }
    } else if chars_eq(k.as_slice(), str_chars("theme").as_slice()) {
        if opt_equals(&state.preferences.theme, v.as_slice()) {
            false
        } else {
            state.preferences.theme = Some(value);
            true
        }
    } else if chars_eq(k.as_slice(), str_chars("font_family").as_slice()) {
        if opt_equals(&state.preferences.font_family, v.as_slice()) {
            false
        } else {
            state.preferences.font_family = Some(value);
            true
        }
    } else if chars_eq(k.as_slice(), str_chars("line_height").as_slice()) {
        if number.same_as_line_height {
            false
        } else {
            state.preferences.line_height_bits = number.value_bits;
            true
        }
    } else if chars_eq(k.as_slice(), str_chars("text_align").as_slice()) {
        if opt_equals(&state.preferences.text_align, v.as_slice()) {
            false
        } else {
            state.preferences.text_align = Some(value);
            true
        }
    } else if chars_eq(k.as_slice(), str_chars("reader_mode").as_slice()) {
        let next = reader_mode_value(value.as_str());
        if opt_equals(&state.preferences.reader_mode, to_chars(next.as_str()).as_slice()) {
            false
        } else {
            state.preferences.reader_mode = Some(next);
            true
        }
    } else {
        false
    }
}

/// Forgets which book was open last. Returns whether anything changed.
pub fn clear_last_opened(state: &mut AppState) -> (changed: bool)
    ensures
        changed == (old(state)@.last_opened is Some),
        final(state)@ == (AppStateView { last_opened: None, ..old(state)@ }),
        final(state).books@ == old(state).books@,
{
    if state.last_opened.is_none() {
        return false;
    }
    state.last_opened = None;
    true
}

// ---------------------------------------------------------------------------
// Laws
// ---------------------------------------------------------------------------

/// Setting a preference sets exactly that preference. A text preference
/// (`theme`, `font_family`, `text_align`) ends up holding the value, and a
/// change is reported exactly when it held something else; `reader_mode`
/// ends up "scroll" for "scroll" and "paginated" for anything else; a numeric
/// preference takes the parsed value unless the caller found it equal to the
/// current one; any other key changes nothing. No other preference moves.
pub proof fn law_preference_update_sets(p: UserPreferencesView, key: Seq<char>, value: Seq<char>, n: ParsedNumber)
    ensures
        ({
            let (q, changed) = preference_update(p, key, value, n);
            &&& key == "theme"@ ==> q == UserPreferencesView { theme: Some(value), ..p } && changed == (p.theme != Some(value))
            &&& key == "font_family"@ ==> q == UserPreferencesView { font_family: Some(value), ..p } && changed == (p.font_family
                != Some(value))
            &&& key == "text_align"@ ==> q == UserPreferencesView { text_align: Some(value), ..p } && changed == (p.text_align
                != Some(value))
            &&& key == "reader_mode"@ ==> {
                let mode = if value == "scroll"@ { "scroll"@ } else { "paginated"@ };
                q == UserPreferencesView { reader_mode: Some(mode), ..p } && changed == (p.reader_mode != Some(mode))
            }
            &&& key == "font_size"@ ==> if n.same_as_font_size {
                q == p && !changed
            } else {
                q == UserPreferencesView { font_size_bits: n.value_bits, ..p } && changed
            }
            &&& key == "line_height"@ ==> if n.same_as_line_height {
                q == p && !changed
            } else {
                q == UserPreferencesView { line_height_bits: n.value_bits, ..p } && changed
            }
            &&& !(key == "theme"@ || key == "font_family"@ || key == "text_align"@ || key == "reader_mode"@
                || key == "font_size"@ || key == "line_height"@) ==> q == p && !changed
        }),
{
    reveal_strlit("theme");
    reveal_strlit("font_family");
    reveal_strlit("text_align");
    reveal_strlit("reader_mode");
    reveal_strlit("font_size");
    reveal_strlit("line_height");
    assert("theme"@.len() == 5 && "font_size"@.len() == 9 && "text_align"@.len() == 10);
    assert("font_family"@.len() == 11 && "reader_mode"@.len() == 11 && "line_height"@.len() == 11);
    assert("font_family"@[0] == 'f' && "reader_mode"@[0] == 'r' && "line_height"@[0] == 'l');
}

/// Setting a text-valued preference (or an unknown key) to the same value a
/// second time changes nothing. The numeric preferences are left out: whether
/// their value is the same is decided by comparing `f32` values, which the
/// caller reports in `ParsedNumber`.
pub proof fn law_preference_update_idempotent(
    p: UserPreferencesView,
    key: Seq<char>,
    value: Seq<char>,
    n: ParsedNumber,
    again: ParsedNumber,
)
    requires
        key != "font_size"@,
        key != "line_height"@,
    ensures
        ({
            let once = preference_update(p, key, value, n).0;
            preference_update(once, key, value, again) == (once, false)
        }),
{
}

/// Clearing the last opened book twice changes nothing the second time.
pub proof fn law_clear_last_opened_twice(s: AppStateView)
    ensures
        ({
            let once = AppStateView { last_opened: None, ..s };
            AppStateView { last_opened: None, ..once } == once && !(once.last_opened is Some)
        }),
{
}

} // verus!
