//! Presets, the store that holds them by name, and the two commands that
//! change the store.

use crate::error::{EnvError, Fault};
use crate::table::{lemma_deep_insert, lemma_deep_remove, Table};
use vstd::prelude::*;
use vstd::std_specs::iter::IteratorSpec;
use vstd::string::{StrSliceExecFns, StringExecFns};

verus! {

/// The variables of one preset: a value for each name.
pub type Preset = Table<String>;

/// Every preset, by its name.
pub type Presets = Table<Preset>;

/// What a preset holds: a map from variable names to values.
pub type Assignments = Map<Seq<char>, Seq<char>>;

/// What a store holds: a map from preset names to their variables.
pub type Catalog = Map<Seq<char>, Assignments>;

/// Variables in a row: a name and a value each.
pub type Rows = Seq<(Seq<char>, Seq<char>)>;

/// The number of characters of `s` before its first `=`; the length of `s`
/// where it has none.
pub open spec fn cut(s: Seq<char>) -> int
    decreases s.len(),
{
    if s.len() == 0 || s[0] == '=' {
        0
    } else {
        1 + cut(s.drop_first())
    }
}

/// The key and the value of an assignment `KEY=VALUE`: what stands before
/// the first `=` and what stands after it. There is none where the text
/// has no `=` or nothing before it.
pub open spec fn split_pair(s: Seq<char>) -> Option<(Seq<char>, Seq<char>)> {
    if 0 < cut(s) < s.len() {
        Some((key_of(s), value_of(s)))
    } else {
        None
    }
}

/// What stands before the first `=` of an assignment.
pub open spec fn key_of(s: Seq<char>) -> Seq<char> {
    s.take(cut(s))
}

/// What stands after the first `=` of an assignment.
pub open spec fn value_of(s: Seq<char>) -> Seq<char> {
    s.skip(cut(s) + 1)
}

/// `cut` is the place of the first `=`.
pub proof fn lemma_cut(s: Seq<char>, n: int)
    requires
        0 <= n <= s.len(),
        forall|j: int| 0 <= j < n ==> s[j] != '=',
        n == s.len() || s[n] == '=',
    ensures
        cut(s) == n,
    decreases n,
{
    if n > 0 {
        let rest = s.drop_first();
        assert(s[0] != '=');
        assert forall|j: int| 0 <= j < n - 1 implies rest[j] != '=' by {
            assert(rest[j] == s[j + 1]);
        }
        lemma_cut(rest, n - 1);
    }
}

/// Splits an assignment `KEY=VALUE` at its first `=`.
pub fn parse_pair(pair: &str) -> (r: Result<(String, String), EnvError>)
    ensures
        match split_pair(pair@) {
            Some((key, value)) => r matches Ok(kv) && kv.0@ == key && kv.1@ == value,
            None => r matches Err(e) && e@ == Fault::InvalidPairFormat(pair@),
        },
{
    let n: usize = pair.unicode_len();
    let mut chars = pair.chars();
    let mut at: usize = 0;
    let mut found = false;
    while at < n && !found
        invariant
            n == pair@.len(),
            at <= n,
            !found ==> chars.remaining() == pair@.skip(at as int),
            forall|j: int| 0 <= j < at ==> pair@[j] != '=',
            found ==> at < n && pair@[at as int] == '=',
        decreases n - at + (if found { 0int } else { 1int }),
    {
        let next = chars.next();
        assert(next == Some(pair@[at as int]));
        if next == Some('=') {
            found = true;
        } else {
            at += 1;
        }
    }
    proof {
        lemma_cut(pair@, at as int);
    }
    if found && at > 0 {
        let key = String::from_str(pair.substring_char(0, at));
        let value = String::from_str(pair.substring_char(at + 1, n));
        assert(pair@.subrange(0, at as int) =~= pair@.take(at as int));
        assert(pair@.subrange(at + 1, n as int) =~= pair@.skip(at + 1));
        Ok((key, value))
    } else {
        Err(EnvError::InvalidPairFormat { pair: String::from_str(pair) })
    }
}

/// The first text of `pairs` that is no assignment, if there is one.
pub open spec fn first_malformed(pairs: Seq<Seq<char>>) -> Option<Seq<char>>
    decreases pairs.len(),
{
    if pairs.len() == 0 {
        None
    } else if split_pair(pairs[0]) is None {
        Some(pairs[0])
    } else {
        first_malformed(pairs.drop_first())
    }
}

/// The key and the value of each text of `pairs`.
pub open spec fn split_all(pairs: Seq<Seq<char>>) -> Rows {
    Seq::new(pairs.len(), |i: int| (key_of(pairs[i]), value_of(pairs[i])))
}

/// The variables `vars` after each row was stored in turn: a later row
/// replaces an earlier one of the same name.
pub open spec fn with_rows(vars: Assignments, rows: Rows) -> Assignments
    decreases rows.len(),
{
    if rows.len() == 0 {
        vars
    } else {
        with_rows(vars, rows.drop_last()).insert(rows.last().0, rows.last().1)
    }
}

/// The variables `vars` after the assignments `pairs`, made in their
/// order.
pub open spec fn assigned(vars: Assignments, pairs: Seq<Seq<char>>) -> Assignments {
    with_rows(vars, split_all(pairs))
}

/// The variables of the preset `name`; none where the store has no such
/// preset.
pub open spec fn variables_of(store: Catalog, name: Seq<char>) -> Assignments {
    if store.contains_key(name) {
        store[name]
    } else {
        Map::empty()
    }
}

/// The store after the assignments `pairs` to the preset `name`, or the
/// fault that keeps the store as it is.
pub open spec fn added(store: Catalog, name: Seq<char>, pairs: Seq<Seq<char>>) -> Result<
    Catalog,
    Fault,
> {
    match first_malformed(pairs) {
        Some(pair) => Err(Fault::InvalidPairFormat(pair)),
        None => Ok(store.insert(name, assigned(variables_of(store, name), pairs))),
    }
}

/// The store without the preset `name`, or the fault that there is none.
pub open spec fn removed(store: Catalog, name: Seq<char>) -> Result<Catalog, Fault> {
    if store.contains_key(name) {
        Ok(store.remove(name))
    } else {
        Err(Fault::PresetNotFound(name))
    }
}

/// The first malformed text is the one before which all are assignments.
pub proof fn lemma_first_malformed(pairs: Seq<Seq<char>>, n: int)
    requires
        0 <= n <= pairs.len(),
        forall|j: int| 0 <= j < n ==> split_pair(#[trigger] pairs[j]) is Some,
        n < pairs.len() ==> split_pair(pairs[n]) is None,
    ensures
        first_malformed(pairs) == (if n < pairs.len() {
            Some(pairs[n])
        } else {
            None
        }),
    decreases n,
{
    if n > 0 {
        let rest = pairs.drop_first();
        assert(split_pair(pairs[0]) is Some);
        assert forall|j: int| 0 <= j < n - 1 implies split_pair(#[trigger] rest[j]) is Some by {
            assert(rest[j] == pairs[j + 1]);
        }
        lemma_first_malformed(rest, n - 1);
    }
}

/// Splits each text of `pairs` at its first `=`; fails at the first that
/// is no assignment.
pub fn parse_pairs(pairs: &Vec<String>) -> (r: Result<Vec<(String, String)>, EnvError>)
    ensures
        match first_malformed(pairs.deep_view()) {
            Some(pair) => r matches Err(e) && e@ == Fault::InvalidPairFormat(pair),
            None => r matches Ok(rows) && rows.deep_view() == split_all(pairs.deep_view()),
        },
{
    let mut rows: Vec<(String, String)> = Vec::new();
    let mut i: usize = 0;
    while i < pairs.len()
        invariant
            i <= pairs.len(),
            rows.len() == i,
            forall|j: int| 0 <= j < i ==> split_pair(#[trigger] pairs.deep_view()[j]) is Some,
            forall|j: int|
                0 <= j < i ==> (#[trigger] rows[j]).deep_view() == split_all(pairs.deep_view())[j],
        decreases pairs.len() - i,
    {
        assert(pairs.deep_view()[i as int] == pairs[i as int]@);
        match parse_pair(pairs[i].as_str()) {
            Ok(row) => {
                rows.push(row);
            },
            Err(e) => {
                proof {
                    lemma_first_malformed(pairs.deep_view(), i as int);
                }
                return Err(e);
            },
        }
        i += 1;
    }
    proof {
        lemma_first_malformed(pairs.deep_view(), pairs.len() as int);
        assert(rows.deep_view() =~= split_all(pairs.deep_view()));
    }
    Ok(rows)
}

/// Stores each row in the preset, in turn.
pub fn assign_rows(vars: &mut Preset, rows: &Vec<(String, String)>)
    ensures
        final(vars).deep_view() == with_rows(old(vars).deep_view(), rows.deep_view()),
{
    let ghost start = vars.deep_view();
    proof {
        assert(rows.deep_view().take(0) =~= Seq::<(Seq<char>, Seq<char>)>::empty());
    }
    let mut i: usize = 0;
    while i < rows.len()
        invariant
            i <= rows.len(),
            vars.deep_view() == with_rows(start, rows.deep_view().take(i as int)),
        decreases rows.len() - i,
    {
        let key = rows[i].0.clone();
        let value = rows[i].1.clone();
        let ghost held = vars@;
        vars.insert(key, value);
        proof {
            lemma_deep_insert(held, key@, value);
            let upto = rows.deep_view().take(i + 1);
            assert(upto.drop_last() =~= rows.deep_view().take(i as int));
            assert(upto.last() == rows.deep_view()[i as int]);
        }
        i += 1;
    }
    proof {
        assert(rows.deep_view().take(rows.len() as int) =~= rows.deep_view());
    }
}

/// Makes the assignments `pairs` to the preset `preset_name`, which is
/// created where the store has none of that name. Where one of the texts is
/// no assignment, nothing is changed.
pub fn add_to_preset(store: &mut Presets, preset_name: &str, pairs: Vec<String>) -> (r: Result<
    (),
    EnvError,
>)
    ensures
        match added(old(store).deep_view(), preset_name@, pairs.deep_view()) {
            Ok(after) => r is Ok && final(store).deep_view() == after,
            Err(fault) => r matches Err(e) && e@ == fault && final(store).deep_view() == old(
                store,
            ).deep_view(),
        },
{
    let rows = match parse_pairs(&pairs) {
        Ok(rows) => rows,
        Err(e) => {
            return Err(e);
        },
    };
    let ghost before = store.deep_view();
    let mut vars: Preset = match store.remove(preset_name) {
        Some(found) => found,
        None => Table::new(),
    };
    proof {
        lemma_deep_remove(old(store)@, preset_name@);
        assert(vars.deep_view() =~= variables_of(before, preset_name@));
    }
    assign_rows(&mut vars, &rows);
    let ghost without = store@;
    store.insert(String::from_str(preset_name), vars);
    proof {
        lemma_deep_insert(without, preset_name@, vars);
        assert(before.remove(preset_name@).insert(preset_name@, vars.deep_view()) =~= before.insert(
            preset_name@,
            vars.deep_view(),
        ));
    }
    Ok(())
}

/// Takes the preset `name` out of the store.
pub fn remove_preset(store: &mut Presets, name: &str) -> (r: Result<(), EnvError>)
    ensures
        match removed(old(store).deep_view(), name@) {
            Ok(after) => r is Ok && final(store).deep_view() == after,
            Err(fault) => r matches Err(e) && e@ == fault && final(store).deep_view() == old(
                store,
            ).deep_view(),
        },
{
    proof {
        lemma_deep_remove(store@, name@);
    }
    match store.remove(name) {
        Some(_) => Ok(()),
        None => {
            assert(store.deep_view() =~= old(store).deep_view());
            Err(EnvError::PresetNotFound { name: String::from_str(name) })
        },
    }
}

/// A batch that holds a text that is no assignment is rejected as a
/// whole: the result is the fault `InvalidPairFormat` for the first such
/// text, and no store.
pub proof fn lemma_malformed_rejected(
    store: Catalog,
    name: Seq<char>,
    pairs: Seq<Seq<char>>,
    i: int,
)
    requires
        0 <= i < pairs.len(),
        split_pair(pairs[i]) is None,
    ensures
        added(store, name, pairs) matches Err(Fault::InvalidPairFormat(pair)) && split_pair(pair)
            is None && pairs.contains(pair),
    decreases pairs.len(),
{
    if split_pair(pairs[0]) is None {
        assert(pairs.contains(pairs[0]));
    } else {
        let rest = pairs.drop_first();
        assert(rest[i - 1] == pairs[i]);
        lemma_malformed_rejected(store, name, rest, i - 1);
        let pair = first_malformed(rest).unwrap();
        let at = rest.index_of(pair);
        assert(pairs[at + 1] == pair);
    }
}

/// A batch of assignments is accepted as a whole: afterwards the store
/// has the preset, and every other preset is as it was.
pub proof fn lemma_wellformed_accepted(store: Catalog, name: Seq<char>, pairs: Seq<Seq<char>>)
    requires
        forall|i: int| 0 <= i < pairs.len() ==> split_pair(#[trigger] pairs[i]) is Some,
    ensures
        added(store, name, pairs) matches Ok(after) && after.contains_key(name) && after[name]
            == assigned(variables_of(store, name), pairs) && after.remove(name) == store.remove(
            name,
        ),
{
    lemma_first_malformed(pairs, pairs.len() as int);
    let after = store.insert(name, assigned(variables_of(store, name), pairs));
    assert(after.remove(name) =~= store.remove(name));
}

/// After rows were stored, the variables are those that were there and
/// those of the rows, and no other; the last row of a name decides its
/// value, and a variable of which there is no row keeps its own.
pub proof fn lemma_with_rows(vars: Assignments, rows: Rows, key: Seq<char>)
    ensures
        with_rows(vars, rows).contains_key(key) <==> vars.contains_key(key) || exists|i: int|
            0 <= i < rows.len() && (#[trigger] rows[i]).0 == key,
        forall|i: int|
            0 <= i < rows.len() && (#[trigger] rows[i]).0 == key && (forall|j: int|
                i < j < rows.len() ==> (#[trigger] rows[j]).0 != key) ==> with_rows(vars, rows)[key]
                == rows[i].1,
        (forall|i: int| 0 <= i < rows.len() ==> (#[trigger] rows[i]).0 != key) ==> with_rows(
            vars,
            rows,
        )[key] == vars[key],
    decreases rows.len(),
{
    if rows.len() > 0 {
        let rest = rows.drop_last();
        let n = rows.len() - 1;
        lemma_with_rows(vars, rest, key);
        assert(rows[n] == rows.last());
        if rows[n].0 != key {
            if exists|i: int| 0 <= i < rows.len() && (#[trigger] rows[i]).0 == key {
                let i = choose|i: int| 0 <= i < rows.len() && (#[trigger] rows[i]).0 == key;
                assert(rest[i].0 == key);
            }
            if exists|i: int| 0 <= i < rest.len() && (#[trigger] rest[i]).0 == key {
                let i = choose|i: int| 0 <= i < rest.len() && (#[trigger] rest[i]).0 == key;
                assert(rows[i].0 == key);
            }
            assert forall|i: int|
                0 <= i < rows.len() && (#[trigger] rows[i]).0 == key && (forall|j: int|
                    i < j < rows.len() ==> (#[trigger] rows[j]).0 != key) implies with_rows(
                vars,
                rows,
            )[key] == rows[i].1 by {
                assert(rest[i] == rows[i]);
                assert forall|j: int| i < j < rest.len() implies (#[trigger] rest[j]).0 != key by {
                    assert(rest[j] == rows[j]);
                }
            }
            if (forall|i: int| 0 <= i < rows.len() ==> (#[trigger] rows[i]).0 != key) {
                assert forall|i: int| 0 <= i < rest.len() implies (#[trigger] rest[i]).0 != key by {
                    assert(rest[i] == rows[i]);
                }
            }
        }
    }
}

/// After assignments a preset holds the variables that it held and those
/// that were assigned, and no other; the last assignment to a variable
/// decides its value.
pub proof fn lemma_assigned(vars: Assignments, pairs: Seq<Seq<char>>, key: Seq<char>)
    ensures
        assigned(vars, pairs).contains_key(key) <==> vars.contains_key(key) || exists|i: int|
            0 <= i < pairs.len() && key_of(#[trigger] pairs[i]) == key,
        forall|i: int|
            0 <= i < pairs.len() && key_of(#[trigger] pairs[i]) == key && (forall|j: int|
                i < j < pairs.len() ==> key_of(#[trigger] pairs[j]) != key) ==> assigned(
                vars,
                pairs,
            )[key] == value_of(pairs[i]),
{
    let rows = split_all(pairs);
    lemma_with_rows(vars, rows, key);
    if exists|i: int| 0 <= i < rows.len() && (#[trigger] rows[i]).0 == key {
        let i = choose|i: int| 0 <= i < rows.len() && (#[trigger] rows[i]).0 == key;
        assert(key_of(pairs[i]) == key);
    }
    if exists|i: int| 0 <= i < pairs.len() && key_of(#[trigger] pairs[i]) == key {
        let i = choose|i: int| 0 <= i < pairs.len() && key_of(#[trigger] pairs[i]) == key;
        assert(rows[i].0 == key);
    }
    assert forall|i: int|
        0 <= i < pairs.len() && key_of(#[trigger] pairs[i]) == key && (forall|j: int|
            i < j < pairs.len() ==> key_of(#[trigger] pairs[j]) != key) implies assigned(
        vars,
        pairs,
    )[key] == value_of(pairs[i]) by {
        assert(rows[i].0 == key);
        assert forall|j: int| i < j < rows.len() implies (#[trigger] rows[j]).0 != key by {
            assert(key_of(pairs[j]) != key);
        }
    }
}

} // verus!
