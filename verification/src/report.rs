//! The two commands that only read the store: the list of the presets and
//! the variables of one of them.

use crate::error::{EnvError, Fault};
use crate::store::{
    added, assigned, lemma_wellformed_accepted, removed, split_pair, variables_of, Assignments,
    Catalog, Preset, Presets,
};
use crate::table::in_order;
use vstd::prelude::*;
use vstd::string::StringExecFns;

verus! {

/// The line that stands for the whole list where the store is empty.
pub open spec fn nothing_listed() -> Seq<char> {
    "No presets found. Use 'emanager add ...' to create one."@
}

/// The line above the names of a list.
pub open spec fn list_heading() -> Seq<char> {
    "Available presets:"@
}

/// The line of a list for the preset `name`.
pub open spec fn list_entry(name: Seq<char>) -> Seq<char> {
    "- "@ + name
}

/// The line above the variables of the preset `name`.
pub open spec fn preset_heading(name: Seq<char>) -> Seq<char> {
    "["@ + name + "]"@
}

/// The line for the variable `key` with the value `value`.
pub open spec fn variable_entry(key: Seq<char>, value: Seq<char>) -> Seq<char> {
    "  "@ + key + "="@ + value
}

/// The list of a store: the heading and one line for each preset, in the
/// order of the names; one line that says so where there is no preset.
pub open spec fn listed(store: Catalog) -> Seq<Seq<char>> {
    if store.dom() == Set::<Seq<char>>::empty() {
        seq![nothing_listed()]
    } else {
        seq![list_heading()] + in_order(store.dom()).map_values(|name: Seq<char>| list_entry(name))
    }
}

/// The lines for the variables of a preset, in the order of their names.
pub open spec fn variable_entries(vars: Assignments) -> Seq<Seq<char>> {
    in_order(vars.dom()).map_values(|key: Seq<char>| variable_entry(key, vars[key]))
}

/// What is shown of the preset `name`: its heading and its variables, or
/// the fault that the store has no such preset.
pub open spec fn shown(store: Catalog, name: Seq<char>) -> Result<Seq<Seq<char>>, Fault> {
    if store.contains_key(name) {
        Ok(seq![preset_heading(name)] + variable_entries(store[name]))
    } else {
        Err(Fault::PresetNotFound(name))
    }
}

/// Lists the names of the presets, least first, under a heading.
pub fn list_presets(store: &Presets) -> (r: Vec<String>)
    ensures
        r.deep_view() == listed(store.deep_view()),
{
    let rows = store.entries();
    let n: usize = rows.len();
    let mut lines: Vec<String> = Vec::new();
    proof {
        assert(store.deep_view().dom() =~= store@.dom());
    }
    if store.len() == 0 {
        lines.push(String::from_str("No presets found. Use 'emanager add ...' to create one."));
        proof {
            assert(store@.dom().len() == 0);
            assert(store@.dom() =~= Set::<Seq<char>>::empty());
            assert(lines.deep_view() =~= seq![nothing_listed()]);
        }
        return lines;
    }
    lines.push(String::from_str("Available presets:"));
    let ghost names = in_order(store.deep_view().dom()).map_values(
        |name: Seq<char>| list_entry(name),
    );
    proof {
        assert(lines.deep_view() =~= seq![list_heading()] + names.take(0));
    }
    let mut i: usize = 0;
    while i < n
        invariant
            i <= n,
            n == rows@.len(),
            names.len() == n,
            forall|j: int| 0 <= j < n ==> names[j] == list_entry((#[trigger] rows@[j]).0@),
            lines.deep_view() == seq![list_heading()] + names.take(i as int),
        decreases n - i,
    {
        let mut line = String::from_str("- ");
        line.append(rows[i].0.as_str());
        let ghost held = lines.deep_view();
        lines.push(line);
        proof {
            assert(lines.deep_view() =~= held.push(line@));
            assert(seq![list_heading()] + names.take(i + 1) =~= (seq![list_heading()] + names.take(
                i as int,
            )).push(names[i as int]));
        }
        i += 1;
    }
    proof {
        assert(names.take(n as int) =~= names);
        assert(store@.dom().len() != 0);
    }
    lines
}

/// Appends to `lines` one line for each variable of the preset.
fn push_variables(lines: &mut Vec<String>, vars: &Preset)
    ensures
        final(lines).deep_view() == old(lines).deep_view() + variable_entries(vars.deep_view()),
{
    let rows = vars.entries();
    let ghost start = lines.deep_view();
    let ghost all = variable_entries(vars.deep_view());
    proof {
        assert(vars.deep_view().dom() =~= vars@.dom());
        assert(start + all.take(0) =~= start);
    }
    let mut i: usize = 0;
    while i < rows.len()
        invariant
            i <= rows@.len(),
            all.len() == rows@.len(),
            forall|j: int|
                0 <= j < rows@.len() ==> all[j] == variable_entry(
                    (#[trigger] rows@[j]).0@,
                    rows@[j].1@,
                ),
            lines.deep_view() == start + all.take(i as int),
        decreases rows@.len() - i,
    {
        let mut line = String::from_str("  ");
        line.append(rows[i].0.as_str());
        line.append("=");
        line.append(rows[i].1.as_str());
        let ghost held = lines.deep_view();
        lines.push(line);
        proof {
            assert(lines.deep_view() =~= held.push(line@));
            assert(start + all.take(i + 1) =~= (start + all.take(i as int)).push(all[i as int]));
        }
        i += 1;
    }
    proof {
        assert(all.take(rows@.len() as int) =~= all);
    }
}

/// Shows the preset `name`: its name in brackets, then its variables with
/// their values, least name first.
pub fn show_preset(store: &Presets, name: &str) -> (r: Result<Vec<String>, EnvError>)
    ensures
        match shown(store.deep_view(), name@) {
            Ok(lines) => r matches Ok(v) && v.deep_view() == lines,
            Err(fault) => r matches Err(e) && e@ == fault,
        },
{
    match store.get(name) {
        Some(vars) => {
            let mut heading = String::from_str("[");
            heading.append(name);
            heading.append("]");
            let mut lines: Vec<String> = Vec::new();
            lines.push(heading);
            assert(lines.deep_view() =~= seq![preset_heading(name@)]);
            push_variables(&mut lines, vars);
            Ok(lines)
        },
        None => Err(EnvError::PresetNotFound { name: String::from_str(name) }),
    }
}

/// What is shown of a preset after assignments to it: its heading and
/// the variables that it then holds.
pub proof fn lemma_add_then_show(store: Catalog, name: Seq<char>, pairs: Seq<Seq<char>>)
    requires
        forall|i: int| 0 <= i < pairs.len() ==> split_pair(#[trigger] pairs[i]) is Some,
    ensures
        added(store, name, pairs) matches Ok(after) && shown(after, name) == Ok::<
            Seq<Seq<char>>,
            Fault,
        >(
            seq![preset_heading(name)] + variable_entries(
                assigned(variables_of(store, name), pairs),
            ),
        ),
{
    lemma_wellformed_accepted(store, name, pairs);
}

/// A preset that was removed can no longer be shown: the fault is
/// `PresetNotFound`.
pub proof fn lemma_remove_then_show(store: Catalog, name: Seq<char>)
    requires
        store.contains_key(name),
    ensures
        removed(store, name) matches Ok(after) && shown(after, name) == Err::<
            Seq<Seq<char>>,
            Fault,
        >(Fault::PresetNotFound(name)),
{
}

} // verus!
