//! Laws of the todo application: what the operations keep, undo and leave
//! unchanged, stated over the views and proved.
use vstd::prelude::*;

use crate::app::{add_todo_view, key_allowed, begin_edit_view, indices_in_range, initial_view, start_tagging_view, InputMode, leave_input, lemma_matching_upto_bounds, well_formed, cycle_priority_view, delete_view, key_step, move_view, matching, matching_upto, refreshed_view, selected_item, selection_in_range, sorted_view, toggle_done_view, AppView, Key};
use crate::model::{index_order, lemma_precedes_strict_weak, precedes, Priority, SortMode, TodoView};
use crate::order::{lemma_stable_sort_multiset, lemma_stable_sort_ties_increase, lemma_stable_sort_sorted, lemma_stable_sort_stable, sorted_by_lt, tied_with};
use crate::text::{bytes_lt, clean_tag, joined, lemma_parse_joined_tags, lowercase, matches_query, parsed_tags, trimmed};
use crate::display::{decimal, done_count, list_title_text, row_text_of, status_text, tag_badge_of};
use vstd::utf8::encode_utf8;

verus! {

broadcast use vstd::seq_lib::group_to_multiset_ensures;

/// Cycling the priority three times gives back the priority it started from.
pub proof fn lemma_priority_cycle(p: Priority)
    ensures
        p.spec_next().spec_next().spec_next() == p,
        p.spec_next() != p,
        p.spec_next().spec_next() != p,
{
}

/// Cycling the sort mode five times gives back the mode it started from, and
/// not fewer: all five modes are visited on the way.
pub proof fn lemma_sort_mode_cycle(m: SortMode)
    ensures
        m.spec_next().spec_next().spec_next().spec_next().spec_next() == m,
        m.spec_next() != m,
        m.spec_next().spec_next() != m,
        m.spec_next().spec_next().spec_next() != m,
        m.spec_next().spec_next().spec_next().spec_next() != m,
{
}

/// Marking the selected todo done twice restores the state.
pub proof fn lemma_toggle_done_twice(v: AppView)
    requires
        selection_in_range(v),
    ensures
        toggle_done_view(toggle_done_view(v).0).0 == v,
{
    if let Some(t) = selected_item(v) {
        let w = toggle_done_view(v).0;
        assert(selected_item(w) == Some(t));
        assert(w.items.update(t as int, TodoView { done: !w.items[t as int].done, ..w.items[t as int] }) =~= v.items);
    }
}

/// Cycling the priority of the selected todo three times restores the state.
pub proof fn lemma_cycle_priority_thrice(v: AppView)
    requires
        selection_in_range(v),
    ensures
        cycle_priority_view(cycle_priority_view(cycle_priority_view(v).0).0).0 == v,
{
    if let Some(t) = selected_item(v) {
        let w1 = cycle_priority_view(v).0;
        let w2 = cycle_priority_view(w1).0;
        let w3 = cycle_priority_view(w2).0;
        assert(selected_item(w1) == Some(t));
        assert(selected_item(w2) == Some(t));
        lemma_priority_cycle(v.items[t as int].priority);
        assert(w3.items =~= v.items);
    }
}

/// Moving the selection keeps it on an entry of the visible list.
pub proof fn lemma_move_stays_in_list(v: AppView, delta: int)
    requires
        v.filtered.len() > 0,
    ensures
        move_view(v, delta).selected matches Some(s) && s < v.filtered.len(),
{
}

/// After a deletion the selection, if any, is on an entry of the visible list.
pub proof fn lemma_delete_keeps_selection_in_list(v: AppView)
    ensures
        delete_view(v).1 ==> (delete_view(v).0.selected matches Some(s) ==> s < delete_view(v).0.filtered.len()),
{
}

/// A key that leaves the todos as they were reports no change, and every key
/// that changes them asks for them to be saved.
pub proof fn lemma_changes_are_reported(v: AppView, key: Key, now: u64)
    ensures
        !key_step(v, key, now).1 ==> key_step(v, key, now).0.items == v.items,
{
}


proof fn lemma_matching_upto_facts(items: Seq<TodoView>, query: Seq<char>, n: nat)
    requires
        n <= usize::MAX + 1,
    ensures
        forall|a: int, b: int|
            0 <= a < b < matching_upto(items, query, n).len() ==> #[trigger] matching_upto(items, query, n)[a]
                < #[trigger] matching_upto(items, query, n)[b],
        forall|k: int|
            0 <= k < matching_upto(items, query, n).len() ==> #[trigger] matching_upto(items, query, n)[k] < n
                && matches_query(items[matching_upto(items, query, n)[k] as int].text, query),
        forall|i: usize|
            i < n && matches_query(items[i as int].text, query) ==> #[trigger] matching_upto(
                items,
                query,
                n,
            ).contains(i),
    decreases n,
{
    if n > 0 {
        let m0 = matching_upto(items, query, (n - 1) as nat);
        let m = matching_upto(items, query, n);
        lemma_matching_upto_facts(items, query, (n - 1) as nat);
        let last = (n - 1) as usize;
        if matches_query(items[n - 1].text, query) {
            assert(m == m0.push(last));
        } else {
            assert(m == m0);
        }
        assert forall|a: int, b: int| 0 <= a < b < m.len() implies #[trigger] m[a] < #[trigger] m[b] by {
            assert(m[a] == m0[a]);
            assert(m0[a] < n - 1);
            if b < m0.len() {
                assert(m[b] == m0[b]);
                assert(m0[a] < m0[b]);
            } else {
                assert(m[b] == n - 1);
            }
        }
        assert forall|k: int| 0 <= k < m.len() implies #[trigger] m[k] < n
            && matches_query(items[m[k] as int].text, query) by {
            if k < m0.len() {
                assert(m[k] == m0[k]);
            }
        }
        assert forall|i: usize| i < n && matches_query(items[i as int].text, query) implies #[trigger] m.contains(i) by {
            if i < n - 1 {
                assert(m0.contains(i));
                let k = choose|k: int| 0 <= k < m0.len() && m0[k] == i;
                assert(m[k] == i);
            } else {
                assert(m[m.len() - 1] == i);
            }
        }
    }
}

/// After the visible list is recomputed it holds, each once, exactly the
/// todos whose text contains the search query, ignoring case, and it is in
/// the order of the sort mode.
pub proof fn lemma_refresh_shows_matches(v: AppView)
    requires
        v.items.len() <= usize::MAX,
    ensures
        forall|i: usize|
            #[trigger] refreshed_view(v).filtered.contains(i) <==> (i < v.items.len() && matches_query(
                v.items[i as int].text,
                v.query,
            )),
        refreshed_view(v).filtered.no_duplicates(),
        sorted_by_lt(refreshed_view(v).filtered, index_order(v.items, v.sort_mode)),
{
    let m = matching(v.items, v.query);
    let lt = index_order(v.items, v.sort_mode);
    let f = refreshed_view(v).filtered;
    lemma_matching_upto_facts(v.items, v.query, v.items.len());
    lemma_stable_sort_multiset(m, lt);
    lemma_precedes_strict_weak(v.items, v.sort_mode);
    lemma_stable_sort_sorted(m, lt);
    assert forall|i: usize| #[trigger] f.contains(i) <==> (i < v.items.len() && matches_query(v.items[i as int].text, v.query)) by {
        if f.contains(i) {
            assert(f.to_multiset().count(i) > 0);
            assert(m.to_multiset().count(i) > 0);
            assert(m.contains(i));
            let k = choose|k: int| 0 <= k < m.len() && m[k] == i;
        }
        if i < v.items.len() && matches_query(v.items[i as int].text, v.query) {
            assert(m.contains(i));
            assert(m.to_multiset().count(i) > 0);
        }
    }
    assert(m.no_duplicates()) by {
        assert forall|a: int, b: int| 0 <= a < m.len() && 0 <= b < m.len() && a != b implies m[a] != m[b] by {
            if a < b {
                assert(m[a] < m[b]);
            } else {
                assert(m[b] < m[a]);
            }
        }
    }
    m.lemma_multiset_has_no_duplicates();
    assert forall|x: usize| f.to_multiset().contains(x) implies f.to_multiset().count(x) == 1 by {
        assert(m.to_multiset().contains(x));
    }
    f.lemma_multiset_has_no_duplicates_conv();
}

/// After the visible list is recomputed, todos that the sort mode does not
/// tell apart are shown in the order in which they are stored.
pub proof fn lemma_refresh_keeps_ties_in_storage_order(v: AppView)
    requires
        v.items.len() <= usize::MAX,
    ensures
        forall|i: int, j: int|
            0 <= i < j < refreshed_view(v).filtered.len() && !precedes(
                v.sort_mode,
                v.items[refreshed_view(v).filtered[i] as int],
                v.items[refreshed_view(v).filtered[j] as int],
            ) && !precedes(
                v.sort_mode,
                v.items[refreshed_view(v).filtered[j] as int],
                v.items[refreshed_view(v).filtered[i] as int],
            ) ==> #[trigger] refreshed_view(v).filtered[i] < #[trigger] refreshed_view(v).filtered[j],
{
    let m = matching(v.items, v.query);
    let lt = index_order(v.items, v.sort_mode);
    lemma_matching_upto_facts(v.items, v.query, v.items.len());
    lemma_precedes_strict_weak(v.items, v.sort_mode);
    lemma_stable_sort_ties_increase(m, lt);
}

/// Sorting the visible list reorders it: no entry comes before one that the
/// sort mode places ahead of it (high priority first; newest first; oldest
/// first; by text, ignoring case; by first tag, ignoring case), and entries
/// that the mode does not tell apart keep their order.
pub proof fn lemma_sort_orders_visible_list(v: AppView)
    ensures
        sorted_view(v).filtered.to_multiset() == v.filtered.to_multiset(),
        forall|i: int, j: int|
            0 <= i < j < sorted_view(v).filtered.len() ==> !precedes(
                v.sort_mode,
                v.items[#[trigger] sorted_view(v).filtered[j] as int],
                v.items[#[trigger] sorted_view(v).filtered[i] as int],
            ),
        forall|e: usize|
            #[trigger] sorted_view(v).filtered.filter(tied_with(index_order(v.items, v.sort_mode), e))
                == v.filtered.filter(tied_with(index_order(v.items, v.sort_mode), e)),
{
    let lt = index_order(v.items, v.sort_mode);
    lemma_precedes_strict_weak(v.items, v.sort_mode);
    lemma_stable_sort_multiset(v.filtered, lt);
    lemma_stable_sort_sorted(v.filtered, lt);
    let f = sorted_view(v).filtered;
    assert forall|i: int, j: int| 0 <= i < j < f.len() implies !precedes(
        v.sort_mode,
        v.items[#[trigger] f[j] as int],
        v.items[#[trigger] f[i] as int],
    ) by {
        assert(!lt(f[j], f[i]));
    }
    assert forall|e: usize| #[trigger] f.filter(tied_with(lt, e)) == v.filtered.filter(tied_with(lt, e)) by {
        lemma_stable_sort_stable(v.filtered, lt, e);
    }
}

/// In priority order, the priorities of the visible todos do not decrease
/// in rank: high, then medium, then low.
pub proof fn lemma_priority_sort_order(v: AppView)
    requires
        v.sort_mode == SortMode::Priority,
    ensures
        forall|i: int, j: int|
            0 <= i < j < sorted_view(v).filtered.len() ==> v.items[#[trigger] sorted_view(v).filtered[i] as int].priority.rank()
                <= v.items[#[trigger] sorted_view(v).filtered[j] as int].priority.rank(),
        forall|i: int, j: int|
            0 <= i < j < sorted_view(v).filtered.len() ==> {
                let earlier = v.items[#[trigger] sorted_view(v).filtered[i] as int].priority;
                let later = v.items[#[trigger] sorted_view(v).filtered[j] as int].priority;
                &&& later == Priority::High ==> earlier == Priority::High
                &&& later == Priority::Medium ==> earlier != Priority::Low
            },
{
    lemma_sort_orders_visible_list(v);
}

/// Newest first: creation times do not increase along the visible list.
pub proof fn lemma_newest_sort_order(v: AppView)
    requires
        v.sort_mode == SortMode::Newest,
    ensures
        forall|i: int, j: int|
            0 <= i < j < sorted_view(v).filtered.len() ==> v.items[#[trigger] sorted_view(v).filtered[i] as int].created_at
                >= v.items[#[trigger] sorted_view(v).filtered[j] as int].created_at,
{
    lemma_sort_orders_visible_list(v);
}

/// Oldest first: creation times do not decrease along the visible list.
pub proof fn lemma_oldest_sort_order(v: AppView)
    requires
        v.sort_mode == SortMode::Oldest,
    ensures
        forall|i: int, j: int|
            0 <= i < j < sorted_view(v).filtered.len() ==> v.items[#[trigger] sorted_view(v).filtered[i] as int].created_at
                <= v.items[#[trigger] sorted_view(v).filtered[j] as int].created_at,
{
    lemma_sort_orders_visible_list(v);
}


proof fn lemma_refreshed_in_range(w: AppView)
    requires
        w.items.len() <= usize::MAX,
    ensures
        indices_in_range(refreshed_view(w)),
        refreshed_view(w).filtered.len() <= w.items.len(),
        refreshed_view(w).filtered.no_duplicates(),
{
    lemma_refresh_shows_matches(w);
    let m = matching(w.items, w.query);
    let lt = index_order(w.items, w.sort_mode);
    let f = refreshed_view(w).filtered;
    lemma_matching_upto_bounds(w.items, w.query, w.items.len());
    lemma_stable_sort_multiset(m, lt);
    assert forall|i: int| 0 <= i < f.len() implies #[trigger] f[i] < w.items.len() by {
        assert(f.contains(f[i]));
        assert(m.to_multiset().count(f[i]) > 0);
        assert(m.contains(f[i]));
        let k = choose|k: int| 0 <= k < m.len() && m[k] == f[i];
    }
}

proof fn lemma_sorted_in_range(w: AppView)
    requires
        indices_in_range(w),
        w.filtered.no_duplicates(),
    ensures
        indices_in_range(sorted_view(w)),
        sorted_view(w).filtered.len() == w.filtered.len(),
        sorted_view(w).filtered.no_duplicates(),
{
    let lt = index_order(w.items, w.sort_mode);
    let f = sorted_view(w).filtered;
    lemma_stable_sort_multiset(w.filtered, lt);
    assert forall|i: int| 0 <= i < f.len() implies #[trigger] f[i] < w.items.len() by {
        assert(f.contains(f[i]));
        assert(w.filtered.to_multiset().count(f[i]) > 0);
        assert(w.filtered.contains(f[i]));
        let k = choose|k: int| 0 <= k < w.filtered.len() && w.filtered[k] == f[i];
    }
    w.filtered.lemma_multiset_has_no_duplicates();
    assert forall|x: usize| f.to_multiset().contains(x) implies f.to_multiset().count(x) == 1 by {
        assert(w.filtered.to_multiset().contains(x));
    }
    f.lemma_multiset_has_no_duplicates_conv();
}

/// The application starts well formed.
pub proof fn lemma_initial_well_formed(items: Seq<TodoView>)
    requires
        items.len() <= usize::MAX,
    ensures
        well_formed(initial_view(items)),
{
    let w = AppView {
        items: items,
        selected: if items.len() > 0 { Some(0usize) } else { None },
        input: Seq::empty(),
        mode: crate::app::InputMode::Normal,
        query: Seq::empty(),
        filtered: Seq::new(items.len(), |i: int| i as usize),
        sort_mode: SortMode::Newest,
        should_quit: false,
    };
    assert(initial_view(items) == sorted_view(w));
    assert(w.filtered.no_duplicates());
    lemma_sorted_in_range(w);
}

/// A well formed state with fewer todos than `i32::MAX` meets what handling
/// any key requires.
pub proof fn lemma_well_formed_ready(v: AppView, key: Key)
    requires
        well_formed(v),
        v.items.len() < i32::MAX,
    ensures
        key_allowed(v, key),
{
}

/// Adding a todo keeps the selection on an entry of the visible list, or
/// selects nothing when the search hides every todo.
pub proof fn lemma_add_keeps_selection_in_list(v: AppView, now: u64)
    requires
        v.selected matches Some(s) ==> s < v.filtered.len(),
    ensures
        add_todo_view(v, now).0.selected matches Some(s) ==> s < add_todo_view(v, now).0.filtered.len(),
{
}

/// Every key keeps the application well formed, so that no later key finds
/// the visible list or the edited todo pointing past the todos.
pub proof fn lemma_key_step_well_formed(v: AppView, key: Key, now: u64)
    requires
        well_formed(v),
        v.items.len() < usize::MAX,
    ensures
        well_formed(key_step(v, key, now).0),
{
    let r = key_step(v, key, now).0;
    match v.mode {
        crate::app::InputMode::Normal => {
            match key {
                Key::Char('d') | Key::Delete => {
                    if let Some(t) = selected_item(v) {
                        lemma_refreshed_in_range(AppView { items: v.items.remove(t as int), ..v });
                    }
                },
                Key::Char('s') => {
                    lemma_sorted_in_range(AppView { sort_mode: v.sort_mode.spec_next(), ..v });
                },
                Key::Char('l') => {
                    lemma_refreshed_in_range(AppView { query: Seq::empty(), ..v });
                },
                _ => {},
            }
        },
        crate::app::InputMode::Adding => {
            if key == Key::Enter {
                let text = crate::text::trimmed(v.input);
                if text.len() > 0 {
                    lemma_refreshed_in_range(AppView { items: v.items.push(crate::model::Todo::spec_fresh(text, now)), ..v });
                }
            }
        },
        crate::app::InputMode::Searching => {
            if key == Key::Esc {
                lemma_refreshed_in_range(AppView { query: Seq::empty(), ..AppView { input: Seq::empty(), ..v } });
            } else if key == Key::Enter {
                lemma_refreshed_in_range(AppView { query: crate::text::lowercase(crate::text::trimmed(v.input)), ..leave_input(v) });
            }
        },
        _ => {},
    }
}


/// Opening the tags of the selected todo for editing and confirming the line
/// as offered leaves the todos as they were, when every tag is clean (not
/// empty, not padded with white space, without a comma); the application is
/// back in the normal mode.
pub proof fn lemma_tag_edit_round_trip(v: AppView, now: u64)
    requires
        v.mode == InputMode::Normal,
        selected_item(v) matches Some(t) && t < v.items.len() && forall|i: int|
            0 <= i < v.items[t as int].tags.len() ==> clean_tag(#[trigger] v.items[t as int].tags[i]),
    ensures
        key_step(key_step(v, Key::Char('t'), now).0, Key::Enter, now).0.items == v.items,
        key_step(key_step(v, Key::Char('t'), now).0, Key::Enter, now).0.mode == InputMode::Normal,
{
    let t = selected_item(v)->0;
    let tags = v.items[t as int].tags;
    lemma_parse_joined_tags(tags);
    let w = key_step(v, Key::Char('t'), now).0;
    assert(w == start_tagging_view(v, t));
    assert(w.items.update(t as int, TodoView { tags: parsed_tags(w.input), ..w.items[t as int] }) =~= v.items);
}

/// Opening the text of the selected todo for editing and confirming it as
/// offered leaves the todos as they were, when the text is not blank and not
/// padded with white space.
pub proof fn lemma_text_edit_round_trip(v: AppView, now: u64)
    requires
        v.mode == InputMode::Normal,
        selected_item(v) matches Some(t) && t < v.items.len() && trimmed(v.items[t as int].text)
            == v.items[t as int].text && v.items[t as int].text.len() > 0,
    ensures
        key_step(key_step(v, Key::Enter, now).0, Key::Enter, now).0.items == v.items,
        key_step(key_step(v, Key::Enter, now).0, Key::Enter, now).0.mode == InputMode::Normal,
{
    let t = selected_item(v)->0;
    let w = key_step(v, Key::Enter, now).0;
    assert(w == begin_edit_view(v));
    assert(w.items.update(t as int, TodoView { text: trimmed(w.input), ..w.items[t as int] }) =~= v.items);
}


/// `a` comes before `b` in dictionary order of bytes: `a` is a proper prefix of
/// `b`, or at the first position where they differ `a` has the smaller byte.
pub open spec fn dictionary_before(a: Seq<u8>, b: Seq<u8>) -> bool {
    ||| (a.len() < b.len() && a == b.take(a.len() as int))
    ||| exists|k: int| 0 <= k < a.len() && k < b.len() && a.take(k) == b.take(k) && #[trigger] a[k] < b[k]
}

proof fn lemma_dictionary_before_bytes_lt(a: Seq<u8>, b: Seq<u8>)
    requires
        dictionary_before(a, b),
    ensures
        bytes_lt(a, b),
    decreases a.len(),
{
    if a.len() == 0 {
        if !(a.len() < b.len()) {
            let k = choose|k: int| 0 <= k < a.len() && k < b.len() && a.take(k) == b.take(k) && #[trigger] a[k] < b[k];
        }
    } else if b.len() == 0 {
        if !(a.len() < b.len() && a == b.take(a.len() as int)) {
            let k = choose|k: int| 0 <= k < a.len() && k < b.len() && a.take(k) == b.take(k) && #[trigger] a[k] < b[k];
        }
    } else {
        let (a1, b1) = (a.drop_first(), b.drop_first());
        if a.len() < b.len() && a == b.take(a.len() as int) {
            assert(a[0] == b.take(a.len() as int)[0]);
            assert(a1 =~= b1.take(a1.len() as int));
            assert(dictionary_before(a1, b1));
            lemma_dictionary_before_bytes_lt(a1, b1);
        } else {
            let k = choose|k: int| 0 <= k < a.len() && k < b.len() && a.take(k) == b.take(k) && #[trigger] a[k] < b[k];
            if k > 0 {
                assert(a[0] == a.take(k)[0] && b[0] == b.take(k)[0]);
                assert(a1.take(k - 1) =~= a.take(k).drop_first());
                assert(b1.take(k - 1) =~= b.take(k).drop_first());
                assert(a1[k - 1] < b1[k - 1]);
                assert(dictionary_before(a1, b1));
                lemma_dictionary_before_bytes_lt(a1, b1);
            }
        }
    }
}

/// In the A-Z mode the visible todos are in dictionary order of the UTF-8
/// bytes of their lower-case texts: no todo comes after one whose lower-case
/// text is before its own.
pub proof fn lemma_alpha_sort_dictionary_order(v: AppView)
    requires
        v.sort_mode == SortMode::Alpha,
    ensures
        forall|i: int, j: int|
            0 <= i < j < sorted_view(v).filtered.len() ==> !dictionary_before(
                encode_utf8(lowercase(v.items[#[trigger] sorted_view(v).filtered[j] as int].text)),
                encode_utf8(lowercase(v.items[#[trigger] sorted_view(v).filtered[i] as int].text)),
            ),
{
    lemma_sort_orders_visible_list(v);
    let f = sorted_view(v).filtered;
    assert forall|i: int, j: int| 0 <= i < j < f.len() implies !dictionary_before(
        encode_utf8(lowercase(v.items[#[trigger] f[j] as int].text)),
        encode_utf8(lowercase(v.items[#[trigger] f[i] as int].text)),
    ) by {
        let a = encode_utf8(lowercase(v.items[f[j] as int].text));
        let b = encode_utf8(lowercase(v.items[f[i] as int].text));
        if dictionary_before(a, b) {
            lemma_dictionary_before_bytes_lt(a, b);
        }
    }
}

/// The lower-case UTF-8 bytes of a todo's first tag, or nothing without a tag.
pub open spec fn first_tag_bytes(t: TodoView) -> Seq<u8> {
    if t.tags.len() > 0 {
        encode_utf8(lowercase(t.tags[0]))
    } else {
        Seq::empty()
    }
}

/// In the tag mode the visible todos are in dictionary order of the UTF-8
/// bytes of their lower-case first tags, untagged todos first.
pub proof fn lemma_tag_sort_dictionary_order(v: AppView)
    requires
        v.sort_mode == SortMode::Tag,
    ensures
        forall|i: int, j: int|
            0 <= i < j < sorted_view(v).filtered.len() ==> !dictionary_before(
                first_tag_bytes(v.items[#[trigger] sorted_view(v).filtered[j] as int]),
                first_tag_bytes(v.items[#[trigger] sorted_view(v).filtered[i] as int]),
            ),
{
    lemma_sort_orders_visible_list(v);
    let f = sorted_view(v).filtered;
    assert forall|i: int, j: int| 0 <= i < j < f.len() implies !dictionary_before(
        first_tag_bytes(v.items[#[trigger] f[j] as int]),
        first_tag_bytes(v.items[#[trigger] f[i] as int]),
    ) by {
        let a = first_tag_bytes(v.items[f[j] as int]);
        let b = first_tag_bytes(v.items[f[i] as int]);
        if dictionary_before(a, b) {
            lemma_dictionary_before_bytes_lt(a, b);
        }
    }
}

/// After the visible list is recomputed, a todo is visible exactly when the
/// lower-case form of the query occurs, as a contiguous run of characters,
/// somewhere in the lower-case form of its whole text.
pub proof fn lemma_search_matches_whole_text(v: AppView)
    requires
        v.items.len() <= usize::MAX,
    ensures
        forall|i: usize|
            #[trigger] refreshed_view(v).filtered.contains(i) <==> (i < v.items.len() && exists|k: int|
                0 <= k && k + lowercase(v.query).len() <= lowercase(v.items[i as int].text).len()
                    && #[trigger] lowercase(v.items[i as int].text).subrange(k, k + lowercase(v.query).len())
                    == lowercase(v.query)),
{
    lemma_refresh_shows_matches(v);
}

/// Deleting removes exactly the todo that the selected visible entry names,
/// and reports a change.
pub proof fn lemma_delete_removes_selected(v: AppView, s: usize, now: u64)
    requires
        v.mode == InputMode::Normal,
        v.selected == Some(s),
        s < v.filtered.len(),
        v.filtered[s as int] < v.items.len(),
    ensures
        key_step(v, Key::Delete, now).0.items == v.items.remove(v.filtered[s as int] as int),
        key_step(v, Key::Char('d'), now).0.items == v.items.remove(v.filtered[s as int] as int),
        key_step(v, Key::Delete, now).1,
        key_step(v, Key::Delete, now).0.filtered == refreshed_view(
            AppView { items: v.items.remove(v.filtered[s as int] as int), ..v },
        ).filtered,
        ({
            let after = key_step(v, Key::Delete, now).0;
            let n = after.filtered.len();
            &&& n == 0 ==> after.selected is None
            &&& n > 0 && s >= n ==> after.selected == Some((n - 1) as usize)
            &&& s < n ==> after.selected == Some(s)
            &&& after.query == v.query && after.sort_mode == v.sort_mode && after.mode == v.mode
        }),
{
}

/// Without a selected visible entry, deleting, marking done and cycling the
/// priority change nothing.
pub proof fn lemma_no_selection_no_change(v: AppView, now: u64)
    requires
        v.mode == InputMode::Normal,
        v.selected matches Some(s) ==> s >= v.filtered.len(),
    ensures
        key_step(v, Key::Delete, now) == (v, false),
        key_step(v, Key::Char(' '), now) == (v, false),
        key_step(v, Key::Char('p'), now) == (v, false),
{
}

/// Space flips the done mark of exactly the todo that the selected visible
/// entry names; `p` moves exactly that todo to the next priority (low to
/// medium, medium to high, high to low). Nothing else in the todos changes.
pub proof fn lemma_marks_change_the_selected_todo(v: AppView, s: usize, now: u64)
    requires
        v.mode == InputMode::Normal,
        v.selected == Some(s),
        s < v.filtered.len(),
        v.filtered[s as int] < v.items.len(),
    ensures
        ({
            let k = v.filtered[s as int] as int;
            let old_t = v.items[k];
            let d = key_step(v, Key::Char(' '), now).0.items;
            let p = key_step(v, Key::Char('p'), now).0.items;
            &&& d.len() == v.items.len() && p.len() == v.items.len()
            &&& forall|j: int| 0 <= j < v.items.len() && j != k ==> #[trigger] d[j] == v.items[j] && p[j] == v.items[j]
            &&& d[k].done == !old_t.done && d[k].text == old_t.text && d[k].priority == old_t.priority
                && d[k].created_at == old_t.created_at && d[k].tags == old_t.tags
            &&& p[k].priority == match old_t.priority {
                Priority::Low => Priority::Medium,
                Priority::Medium => Priority::High,
                Priority::High => Priority::Low,
            }
            &&& p[k].text == old_t.text && p[k].done == old_t.done && p[k].created_at == old_t.created_at
                && p[k].tags == old_t.tags
        }),
        key_step(v, Key::Char(' '), now).0.filtered == v.filtered,
        key_step(v, Key::Char(' '), now).0.selected == v.selected,
        key_step(v, Key::Char('p'), now).0.filtered == v.filtered,
        key_step(v, Key::Char('p'), now).0.selected == v.selected,
        key_step(v, Key::Char(' '), now).1 && key_step(v, Key::Char('p'), now).1,
{
}

/// `e` (or Enter) opens the text of exactly the todo that the selected visible
/// entry names for editing, and `t` opens its tags.
pub proof fn lemma_editing_opens_the_selected_todo(v: AppView, s: usize, now: u64)
    requires
        v.mode == InputMode::Normal,
        v.selected == Some(s),
        s < v.filtered.len(),
        v.filtered[s as int] < v.items.len(),
    ensures
        key_step(v, Key::Char('e'), now).0.mode == InputMode::Editing(v.filtered[s as int]),
        key_step(v, Key::Char('e'), now).0.input == v.items[v.filtered[s as int] as int].text,
        key_step(v, Key::Char('t'), now).0.mode == InputMode::Tagging(v.filtered[s as int]),
        key_step(v, Key::Char('e'), now).0.items == v.items,
        key_step(v, Key::Char('t'), now).0.items == v.items,
{
}

/// In every mode that edits the input line, a character is appended to it,
/// Backspace removes its last character (if any), and Esc empties it and
/// returns to the normal mode; none of these changes the todos.
pub proof fn lemma_input_line_keys(v: AppView, c: char, now: u64)
    requires
        v.mode != InputMode::Normal,
    ensures
        key_step(v, Key::Char(c), now).0.input == v.input + seq![c],
        key_step(v, Key::Backspace, now).0.input == (if v.input.len() > 0 {
            v.input.take(v.input.len() - 1)
        } else {
            v.input
        }),
        key_step(v, Key::Char(c), now).0.mode == v.mode,
        key_step(v, Key::Backspace, now).0.mode == v.mode,
        key_step(v, Key::Esc, now).0.input.len() == 0,
        key_step(v, Key::Esc, now).0.mode == InputMode::Normal,
        key_step(v, Key::Char(c), now).0.items == v.items,
        key_step(v, Key::Backspace, now).0.items == v.items,
        key_step(v, Key::Esc, now).0.items == v.items,
        !key_step(v, Key::Char(c), now).1 && !key_step(v, Key::Backspace, now).1 && !key_step(v, Key::Esc, now).1,
{
    assert(v.input.push(c) =~= v.input + seq![c]);
    assert(v.input.len() > 0 ==> v.input.drop_last() =~= v.input.take(v.input.len() - 1));
}

/// When a visible entry is selected, the status line is `Selected: "`, the
/// text of the todo that the entry names, `" | `, its priority label, ` | `,
/// `Done` or `Pending`, and, when it has tags, ` | tags: [` with its tags
/// joined by `, ` and `]`.
pub proof fn lemma_status_names_selected(v: AppView, s: usize)
    requires
        v.items.len() > 0,
        v.selected == Some(s),
        s < v.filtered.len(),
        v.filtered[s as int] < v.items.len(),
    ensures
        ({
            let t = v.items[v.filtered[s as int] as int];
            let head = "Selected: \""@ + t.text + "\" | "@ + match t.priority {
                Priority::High => "HIGH"@,
                Priority::Medium => "MED "@,
                Priority::Low => "LOW "@,
            };
            &&& status_text(v).take(head.len() as int) == head
            &&& status_text(v) == head + " | "@ + (if t.done { "Done"@ } else { "Pending"@ }) + (if t.tags.len()
                == 0 {
                Seq::<char>::empty()
            } else {
                " | tags: ["@ + joined(t.tags, ", "@) + "]"@
            })
        }),
{
    let t = v.items[v.filtered[s as int] as int];
    let head = "Selected: \""@ + t.text + "\" | "@ + t.priority.spec_label();
    let rest = " | "@ + (if t.done { "Done"@ } else { "Pending"@ }) + crate::display::tag_suffix(t.tags);
    assert(status_text(v) =~= head + rest);
    assert((head + rest).take(head.len() as int) =~= head);
}

/// Without todos the status line is the hint to add one; with todos and no
/// visible entry selected it is empty.
pub proof fn lemma_status_without_selection(v: AppView)
    ensures
        v.items.len() == 0 ==> status_text(v) == "No todos yet. Press 'n' to add one!"@,
        v.items.len() > 0 && (v.selected is None || v.selected->0 >= v.filtered.len()) ==> status_text(v)
            == Seq::<char>::empty(),
{
}

/// The value of a string of decimal digits, read from the left.
pub open spec fn digits_value(s: Seq<char>) -> int
    decreases s.len(),
{
    if s.len() == 0 {
        0
    } else {
        digits_value(s.drop_last()) * 10 + ((s.last() as u32) - ('0' as u32))
    }
}

proof fn lemma_digit_value(k: int)
    requires
        0 <= k < 10,
    ensures
        '0' <= crate::display::digit_char(k) <= '9',
        (crate::display::digit_char(k) as u32) - ('0' as u32) == k,
{
    assert(('0' as u32) == 48 && ('1' as u32) == 49 && ('2' as u32) == 50 && ('3' as u32) == 51 && ('4' as u32)
        == 52 && ('5' as u32) == 53 && ('6' as u32) == 54 && ('7' as u32) == 55 && ('8' as u32) == 56 && ('9' as u32)
        == 57);
}

/// The decimal notation of a number is a non-empty string of the digits `0`
/// to `9`, with no leading zero unless it is `0` itself, and reads back as
/// that number.
pub proof fn lemma_decimal_reads_back(n: nat)
    ensures
        decimal(n).len() > 0,
        forall|i: int| 0 <= i < decimal(n).len() ==> '0' <= #[trigger] decimal(n)[i] <= '9',
        n > 0 ==> decimal(n)[0] != '0',
        n == 0 ==> decimal(n) == seq!['0'],
        digits_value(decimal(n)) == n,
    decreases n,
{
    if n >= 10 {
        lemma_decimal_reads_back(n / 10);
        lemma_digit_value((n % 10) as int);
        let d = decimal(n);
        assert(d.drop_last() == decimal(n / 10));
        assert forall|i: int| 0 <= i < d.len() implies '0' <= #[trigger] d[i] <= '9' by {
            if i < d.len() - 1 {
                assert(d[i] == decimal(n / 10)[i]);
            }
        }
        assert(d[0] == decimal(n / 10)[0]);
        assert(d.last() == crate::display::digit_char((n % 10) as int));
        assert(digits_value(d) == digits_value(decimal(n / 10)) * 10 + (n % 10));
        assert((n / 10) * 10 + n % 10 == n) by (nonlinear_arith);
    } else {
        lemma_digit_value(n as int);
        let d = decimal(n);
        assert(d.drop_last() =~= Seq::<char>::empty());
        assert(digits_value(d) == digits_value(Seq::<char>::empty()) * 10 + n);
    }
}

/// The title of the list: ` Todos (`, the number of todos that are done,
/// `/`, the number of todos and `) `, followed, while a search is active, by
/// `filtered: ` and the number of visible todos.
pub proof fn lemma_title_counts(v: AppView)
    ensures
        list_title_text(v) == " Todos ("@ + decimal(v.items.filter(|t: TodoView| t.done).len()) + "/"@ + decimal(
            v.items.len(),
        ) + ") "@ + (if v.query.len() == 0 {
            Seq::<char>::empty()
        } else {
            "filtered: "@ + decimal(v.filtered.len())
        }),
{
    lemma_done_count_counts_done(v.items);
}

/// A row shows a check mark and the text struck through for a todo that is
/// done, and an empty box and the text for one that is not; the tag badge is
/// empty for a todo without tags, and its tags joined by `, ` in brackets,
/// then a space, otherwise.
pub proof fn lemma_row_shows_state(t: TodoView)
    ensures
        t.done ==> row_text_of(t) == seq!['✓', ' ', '~', '~'] + t.text + seq!['~', '~'],
        !t.done ==> row_text_of(t) == seq!['☐', ' '] + t.text,
        t.tags.len() == 0 ==> tag_badge_of(t) == Seq::<char>::empty(),
        t.tags.len() > 0 ==> tag_badge_of(t) == seq!['['] + joined(t.tags, seq![',', ' ']) + seq![']', ' '],
{
    reveal_strlit("✓ ~~");
    reveal_strlit("~~");
    reveal_strlit("☐ ");
    reveal_strlit("[");
    reveal_strlit(", ");
    reveal_strlit("] ");
    assert("✓ ~~"@ =~= seq!['✓', ' ', '~', '~']);
    assert("~~"@ =~= seq!['~', '~']);
    assert("☐ "@ =~= seq!['☐', ' ']);
    assert("["@ =~= seq!['[']);
    assert(", "@ =~= seq![',', ' ']);
    assert("] "@ =~= seq![']', ' ']);
}

/// The done count is the number of todos marked done.
pub proof fn lemma_done_count_counts_done(items: Seq<TodoView>)
    ensures
        done_count(items) == items.filter(|t: TodoView| t.done).len(),
    decreases items.len(),
{
    reveal(Seq::filter);
    if items.len() > 0 {
        lemma_done_count_counts_done(items.drop_last());
    }
}


/// Enter while searching makes the input line, without its surrounding white
/// space and in lower case, the search; the input line is emptied, the mode
/// is normal again, the todos are unchanged, and the first visible entry is
/// selected, or nothing when no todo matches.
pub proof fn lemma_search_applies_the_input(v: AppView, now: u64)
    requires
        v.mode == InputMode::Searching,
    ensures
        key_step(v, Key::Enter, now).0.query == lowercase(trimmed(v.input)),
        key_step(v, Key::Enter, now).0.input.len() == 0,
        key_step(v, Key::Enter, now).0.mode == InputMode::Normal,
        key_step(v, Key::Enter, now).0.items == v.items,
        key_step(v, Key::Enter, now).0.selected == (if key_step(v, Key::Enter, now).0.filtered.len() > 0 {
            Some(0usize)
        } else {
            None
        }),
        !key_step(v, Key::Enter, now).1,
{
}

/// Esc while searching drops the search: the query and the input line are
/// emptied and the mode is normal again; the todos are unchanged.
pub proof fn lemma_escape_drops_the_search(v: AppView, now: u64)
    requires
        v.mode == InputMode::Searching,
    ensures
        key_step(v, Key::Esc, now).0.query.len() == 0,
        key_step(v, Key::Esc, now).0.input.len() == 0,
        key_step(v, Key::Esc, now).0.mode == InputMode::Normal,
        key_step(v, Key::Esc, now).0.items == v.items,
{
}

/// Enter while adding appends one todo after the existing ones, whose text is
/// the input line without its surrounding white space, not done, of medium
/// priority, created at `now`, without tags; a blank line adds nothing.
/// Either way the input line is emptied and the mode is normal again.
pub proof fn lemma_adding_appends_one_todo(v: AppView, now: u64)
    requires
        v.mode == InputMode::Adding,
    ensures
        ({
            let r = key_step(v, Key::Enter, now);
            let text = trimmed(v.input);
            &&& r.0.input.len() == 0
            &&& r.0.mode == InputMode::Normal
            &&& text.len() > 0 ==> {
                &&& r.1
                &&& r.0.items.len() == v.items.len() + 1
                &&& r.0.items.take(v.items.len() as int) == v.items
                &&& r.0.items.last().text == text
                &&& !r.0.items.last().done
                &&& r.0.items.last().priority == Priority::Medium
                &&& r.0.items.last().created_at == now
                &&& r.0.items.last().tags.len() == 0
                &&& r.0.filtered == refreshed_view(AppView { items: r.0.items, ..v }).filtered
                &&& r.0.selected == (if r.0.filtered.len() > 0 {
                    Some((r.0.filtered.len() - 1) as usize)
                } else {
                    None
                })
            }
            &&& text.len() == 0 ==> !r.1 && r.0.items == v.items
        }),
{
    let text = trimmed(v.input);
    if text.len() > 0 {
        let r = key_step(v, Key::Enter, now);
        assert(r.0.items.take(v.items.len() as int) =~= v.items);
    }
}

/// Enter while editing todo `idx` replaces its text by the input line without
/// its surrounding white space, unless that is blank; nothing else in the
/// todos changes.
pub proof fn lemma_edit_replaces_the_text(v: AppView, idx: usize, now: u64)
    requires
        v.mode == InputMode::Editing(idx),
        idx < v.items.len(),
    ensures
        ({
            let r = key_step(v, Key::Enter, now);
            let text = trimmed(v.input);
            &&& r.0.items.len() == v.items.len()
            &&& forall|j: int| 0 <= j < v.items.len() && j != idx ==> #[trigger] r.0.items[j] == v.items[j]
            &&& r.0.items[idx as int].text == (if text.len() > 0 { text } else { v.items[idx as int].text })
            &&& r.0.items[idx as int].done == v.items[idx as int].done
            &&& r.0.items[idx as int].priority == v.items[idx as int].priority
            &&& r.0.items[idx as int].tags == v.items[idx as int].tags
            &&& r.1 == (text.len() > 0)
            &&& r.0.mode == InputMode::Normal
        }),
{
}

/// Enter while tagging todo `idx` replaces its tags by those written in the
/// input line; nothing else in the todos changes.
pub proof fn lemma_tagging_replaces_the_tags(v: AppView, idx: usize, now: u64)
    requires
        v.mode == InputMode::Tagging(idx),
        idx < v.items.len(),
    ensures
        ({
            let r = key_step(v, Key::Enter, now);
            &&& r.0.items.len() == v.items.len()
            &&& forall|j: int| 0 <= j < v.items.len() && j != idx ==> #[trigger] r.0.items[j] == v.items[j]
            &&& r.0.items[idx as int].tags == parsed_tags(v.input)
            &&& r.0.items[idx as int].text == v.items[idx as int].text
            &&& r.0.items[idx as int].done == v.items[idx as int].done
            &&& r.0.items[idx as int].priority == v.items[idx as int].priority
            &&& r.1
            &&& r.0.mode == InputMode::Normal
        }),
{
}

/// `j` (or Down) selects the next visible entry and `k` (or Up) the previous
/// one, staying on the last or first entry at the ends; with nothing
/// selected, `j` selects the second entry and `k` the first.
pub proof fn lemma_moving_one_step(v: AppView, now: u64)
    requires
        v.mode == InputMode::Normal,
        v.filtered.len() > 0,
        v.selected matches Some(s) ==> s < v.filtered.len(),
    ensures
        ({
            let cur: int = match v.selected {
                Some(s) => s as int,
                None => 0,
            };
            let last = v.filtered.len() - 1;
            &&& key_step(v, Key::Down, now).0.selected == Some((if cur < last { cur + 1 } else { last }) as usize)
            &&& key_step(v, Key::Char('j'), now).0.selected == Some((if cur < last { cur + 1 } else { last }) as usize)
            &&& key_step(v, Key::Up, now).0.selected == Some((if cur > 0 { cur - 1 } else { 0 }) as usize)
            &&& key_step(v, Key::Char('k'), now).0.selected == Some((if cur > 0 { cur - 1 } else { 0 }) as usize)
            &&& key_step(v, Key::Down, now).0.filtered == v.filtered
            &&& key_step(v, Key::Down, now).0.items == v.items
        }),
{
}

/// `s` switches the sort mode in the order priority, newest, oldest, A-Z,
/// tag, priority; `q` and Esc quit; neither changes the todos.
pub proof fn lemma_sort_and_quit_keys(v: AppView, now: u64)
    requires
        v.mode == InputMode::Normal,
    ensures
        key_step(v, Key::Char('s'), now).0.sort_mode == match v.sort_mode {
            SortMode::Priority => SortMode::Newest,
            SortMode::Newest => SortMode::Oldest,
            SortMode::Oldest => SortMode::Alpha,
            SortMode::Alpha => SortMode::Tag,
            SortMode::Tag => SortMode::Priority,
        },
        key_step(v, Key::Char('s'), now).0.items == v.items,
        key_step(v, Key::Char('s'), now).0.filtered == sorted_view(
            AppView { sort_mode: key_step(v, Key::Char('s'), now).0.sort_mode, ..v },
        ).filtered,
        key_step(v, Key::Char('s'), now).0.selected == (if v.filtered.len() > 0 {
            Some(0usize)
        } else {
            v.selected
        }),
        key_step(v, Key::Char('q'), now).0.should_quit,
        key_step(v, Key::Esc, now).0.should_quit,
        key_step(v, Key::Char('q'), now).0.items == v.items,
{
}

} // verus!
