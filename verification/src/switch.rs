//! Switching presets: the commands that take the variables of the active
//! preset out of a shell and put those of another in.

use crate::error::{EnvError, Fault};
use crate::store::{Assignments, Catalog, Preset, Presets};
use crate::table::{in_order, lemma_in_order};
use crate::text::text_of;
use vstd::prelude::*;
use vstd::string::StringExecFns;

verus! {

/// What `shell_escape::unix::escape` returns for a string.
pub uninterp spec fn shell_escaped(value: Seq<char>) -> Seq<char>;

/// Calls `shell_escape::unix::escape`, which looks at nothing but its
/// argument. The contract gives the result the name `shell_escaped` and
/// claims nothing of what it holds.
#[verifier::external_body]
fn escape(value: &str) -> (r: String)
    ensures
        r@ == shell_escaped(value@),
{
    shell_escape::unix::escape(std::borrow::Cow::Borrowed(value)).into_owned()
}

/// The command that takes the variable `key` out of the shell.
pub open spec fn unset_command(key: Seq<char>) -> Seq<char> {
    "unset "@ + key + ";"@
}

/// The command that gives the variable `key` the value that the shell
/// reads from `word`.
pub open spec fn export_command(key: Seq<char>, word: Seq<char>) -> Seq<char> {
    "export "@ + key + "="@ + word + ";"@
}

/// One `unset` command for each variable, in the order of the names.
pub open spec fn unset_commands(vars: Assignments) -> Seq<Seq<char>> {
    in_order(vars.dom()).map_values(|key: Seq<char>| unset_command(key))
}

/// One `export` command for each variable, in the order of the names,
/// with the value escaped for the shell.
pub open spec fn export_commands(vars: Assignments) -> Seq<Seq<char>> {
    in_order(vars.dom()).map_values(|key: Seq<char>| export_command(key, shell_escaped(vars[key])))
}

/// Writes the command that takes the variable `key` out of the shell.
pub fn unset_line(key: &str) -> (r: String)
    ensures
        r@ == unset_command(key@),
{
    let mut line = String::from_str("unset ");
    line.append(key);
    line.append(";");
    line
}

/// Writes the command that sets the variable `key` to `word`, a value
/// that is already escaped.
pub fn export_line(key: &str, word: &str) -> (r: String)
    ensures
        r@ == export_command(key@, word@),
{
    let mut line = String::from_str("export ");
    line.append(key);
    line.append("=");
    line.append(word);
    line.append(";");
    line
}

/// What a command hands back: the lines for the shell to evaluate, the
/// active preset to record, and the fault if the command failed.
#[derive(Debug, PartialEq, Eq)]
pub struct Transition {
    pub commands: Vec<String>,
    pub active: Option<String>,
    pub failure: Option<EnvError>,
}

/// A `Transition` with its texts as sequences of characters.
pub struct Step {
    pub commands: Seq<Seq<char>>,
    pub active: Option<Seq<char>>,
    pub failure: Option<Fault>,
}

impl View for Transition {
    type V = Step;

    open spec fn view(&self) -> Step {
        Step {
            commands: self.commands.deep_view(),
            active: match self.active {
                Some(name) => Some(name@),
                None => None,
            },
            failure: match self.failure {
                Some(e) => Some(e@),
                None => None,
            },
        }
    }
}

/// What an optional store holds.
pub open spec fn catalog_of(store: Option<&Presets>) -> Option<Catalog> {
    match store {
        Some(s) => Some(s.deep_view()),
        None => None,
    }
}

/// Clearing: the variables of the active preset are unset, as far as the
/// store still knows them, and no preset is active afterwards. The store
/// is `None` where it could not be read.
pub open spec fn cleared(active: Option<Seq<char>>, store: Option<Catalog>) -> Step {
    Step {
        commands: match (active, store) {
            (Some(name), Some(presets)) => if presets.contains_key(name) {
                unset_commands(presets[name])
            } else {
                Seq::empty()
            },
            _ => Seq::empty(),
        },
        active: None,
        failure: None,
    }
}

/// Switching to `name`: first the clearing, then the variables of `name`
/// are exported and `name` is active. Where the store has no such preset,
/// the clearing stands, nothing is exported and no preset is active.
pub open spec fn switched(active: Option<Seq<char>>, store: Catalog, name: Seq<char>) -> Step {
    let before = cleared(active, Some(store));
    if store.contains_key(name) {
        Step {
            commands: before.commands + export_commands(store[name]),
            active: Some(name),
            failure: None,
        }
    } else {
        Step { commands: before.commands, active: None, failure: Some(Fault::PresetNotFound(name)) }
    }
}

/// Appends to `lines` one `unset` command for each variable of the preset.
fn push_unsets(lines: &mut Vec<String>, vars: &Preset)
    ensures
        final(lines).deep_view() == old(lines).deep_view() + unset_commands(vars.deep_view()),
{
    let rows = vars.entries();
    let ghost start = lines.deep_view();
    let ghost all = unset_commands(vars.deep_view());
    proof {
        assert(vars.deep_view().dom() =~= vars@.dom());
        assert(start + all.take(0) =~= start);
    }
    let mut i: usize = 0;
    while i < rows.len()
        invariant
            i <= rows@.len(),
            all.len() == rows@.len(),
            forall|j: int|
                0 <= j < rows@.len() ==> all[j] == unset_command((#[trigger] rows@[j]).0@),
            lines.deep_view() == start + all.take(i as int),
        decreases rows@.len() - i,
    {
        let line = unset_line(rows[i].0.as_str());
        let ghost held = lines.deep_view();
        lines.push(line);
        proof {
            assert(lines.deep_view() =~= held.push(line@));
            assert(start + all.take(i + 1) =~= (start + all.take(i as int)).push(all[i as int]));
        }
        i += 1;
    }
    proof {
        assert(all.take(rows@.len() as int) =~= all);
    }
}

/// Appends to `lines` one `export` command for each variable of the
/// preset.
fn push_exports(lines: &mut Vec<String>, vars: &Preset)
    ensures
        final(lines).deep_view() == old(lines).deep_view() + export_commands(vars.deep_view()),
{
    let rows = vars.entries();
    let ghost start = lines.deep_view();
    let ghost all = export_commands(vars.deep_view());
    proof {
        assert(vars.deep_view().dom() =~= vars@.dom());
        assert(start + all.take(0) =~= start);
    }
    let mut i: usize = 0;
    while i < rows.len()
        invariant
            i <= rows@.len(),
            all.len() == rows@.len(),
            forall|j: int|
                0 <= j < rows@.len() ==> all[j] == export_command(
                    (#[trigger] rows@[j]).0@,
                    shell_escaped(rows@[j].1@),
                ),
            lines.deep_view() == start + all.take(i as int),
        decreases rows@.len() - i,
    {
        let word = escape(rows[i].1.as_str());
        let line = export_line(rows[i].0.as_str(), word.as_str());
        let ghost held = lines.deep_view();
        lines.push(line);
        proof {
            assert(lines.deep_view() =~= held.push(line@));
            assert(start + all.take(i + 1) =~= (start + all.take(i as int)).push(all[i as int]));
        }
        i += 1;
    }
    proof {
        assert(all.take(rows@.len() as int) =~= all);
    }
}

/// Clears the active preset: writes an `unset` command for each of its
/// variables, if the store is there and still has the preset, and records
/// that no preset is active. `store` is `None` where the store could not
/// be read; that is no failure.
pub fn clear_preset(active: Option<&str>, store: Option<&Presets>) -> (r: Transition)
    ensures
        r@ == cleared(text_of(active), catalog_of(store)),
{
    let mut commands: Vec<String> = Vec::new();
    assert(commands.deep_view() =~= Seq::<Seq<char>>::empty());
    if let Some(name) = active {
        if let Some(presets) = store {
            if let Some(vars) = presets.get(name) {
                push_unsets(&mut commands, vars);
                assert(Seq::<Seq<char>>::empty() + unset_commands(vars.deep_view())
                    =~= unset_commands(vars.deep_view()));
            }
        }
    }
    Transition { commands, active: None, failure: None }
}

/// Switches to the preset `name`: clears the active preset, then writes an
/// `export` command for each variable of `name` and records `name` as
/// active. Where the store has no preset `name`, the clearing stands and
/// the failure is `PresetNotFound`.
pub fn use_preset(active: Option<&str>, store: &Presets, name: &str) -> (r: Transition)
    ensures
        r@ == switched(text_of(active), store.deep_view(), name@),
{
    let cleared = clear_preset(active, Some(store));
    let mut commands = cleared.commands;
    match store.get(name) {
        Some(vars) => {
            push_exports(&mut commands, vars);
            Transition { commands, active: Some(String::from_str(name)), failure: None }
        },
        None => Transition {
            commands,
            active: None,
            failure: Some(EnvError::PresetNotFound { name: String::from_str(name) }),
        },
    }
}

/// Switching to a preset that is already active unsets its variables and
/// exports them again, whatever was active before the first switch: the
/// second switch writes the `unset` commands of the preset, then its
/// `export` commands, and leaves it active.
pub proof fn lemma_switch_again(active: Option<Seq<char>>, store: Catalog, name: Seq<char>)
    requires
        store.contains_key(name),
    ensures
        switched(active, store, name).active == Some(name),
        switched(switched(active, store, name).active, store, name) == (Step {
            commands: unset_commands(store[name]) + export_commands(store[name]),
            active: Some(name),
            failure: None,
        }),
{
}

/// Clearing when no preset is active writes no command, fails in no way
/// and leaves no preset active, whatever the store holds and whether or
/// not it could be read.
pub proof fn lemma_clear_when_idle(store: Option<Catalog>)
    ensures
        cleared(None, store) == (Step { commands: Seq::empty(), active: None, failure: None }),
{
}

/// After a clearing no preset is active, so a second clearing writes no
/// command.
pub proof fn lemma_clear_twice(active: Option<Seq<char>>, store: Option<Catalog>)
    ensures
        cleared(cleared(active, store).active, store).commands == Seq::<Seq<char>>::empty(),
{
}

/// What a switch exports, the next clearing unsets: as long as the store
/// keeps the preset as it is, the clearing writes one `unset` command for
/// each of its variables, and one `export` command stood for each of them.
pub proof fn lemma_clear_after_switch(active: Option<Seq<char>>, store: Catalog, name: Seq<char>)
    requires
        store.contains_key(name),
        store[name].dom().finite(),
    ensures
        cleared(switched(active, store, name).active, Some(store)).commands == unset_commands(
            store[name],
        ),
        unset_commands(store[name]).len() == store[name].dom().len(),
        export_commands(store[name]).len() == store[name].dom().len(),
        forall|key: Seq<char>| #[trigger]
            store[name].contains_key(key) ==> unset_commands(store[name]).contains(
                unset_command(key),
            ) && export_commands(store[name]).contains(
                export_command(key, shell_escaped(store[name][key])),
            ),
{
    let vars = store[name];
    let keys = in_order(vars.dom());
    lemma_in_order(vars.dom());
    assert forall|key: Seq<char>| #[trigger] vars.contains_key(key) implies unset_commands(
        vars,
    ).contains(unset_command(key)) && export_commands(vars).contains(
        export_command(key, shell_escaped(vars[key])),
    ) by {
        assert(keys.to_set().contains(key));
        let i = keys.index_of(key);
        assert(unset_commands(vars)[i] == unset_command(key));
        assert(export_commands(vars)[i] == export_command(key, shell_escaped(vars[key])));
    }
}

/// Switching to a preset that the store does not have, while a preset of
/// the store is active, writes the `unset` commands of the active preset,
/// fails with `PresetNotFound` and leaves no preset active.
pub proof fn lemma_failed_switch(store: Catalog, active: Seq<char>, missing: Seq<char>)
    requires
        store.contains_key(active),
        !store.contains_key(missing),
    ensures
        switched(Some(active), store, missing) == (Step {
            commands: unset_commands(store[active]),
            active: None,
            failure: Some(Fault::PresetNotFound(missing)),
        }),
{
}

/// A switch never leaves a preset active that the store does not have:
/// afterwards the requested preset is active, or none.
pub proof fn lemma_active_is_known(active: Option<Seq<char>>, store: Catalog, name: Seq<char>)
    ensures
        switched(active, store, name).active matches Some(now) ==> now == name
            && store.contains_key(now),
        switched(active, store, name).failure is None <==> store.contains_key(name),
{
}

} // verus!
