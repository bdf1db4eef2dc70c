//! The stored forms of the store and of the active-preset record.

use crate::error::{EnvError, Fault};
use crate::store::{assign_rows, with_rows, Assignments, Catalog, Preset, Presets, Rows};
use crate::table::{lemma_deep_insert, Table};
use crate::text::{blank, lemma_trimmed_blank, text_of, trim, trimmed};
use vstd::prelude::*;
use vstd::string::{StrSliceExecFns, StringExecFns};

verus! {

/// `serde_json::Error`, the error of `serde_json::from_str` and of
/// `serde_json::to_string_pretty`. Nothing is said of what it holds.
#[verifier::external_type_specification]
#[verifier::external_body]
pub struct ExJsonError(serde_json::Error);

/// A store as rows of a preset's name and its variables.
pub type PresetRows = Seq<(Seq<char>, Rows)>;

/// What `serde_json::from_str` reads from a text as a map from strings to
/// maps from strings to strings, each map as its entries in the order of
/// their keys; `None` where it reads no such map from the text.
pub uninterp spec fn json_rows(text: Seq<char>) -> Option<PresetRows>;

/// What `serde_json::to_string_pretty` writes for a map from strings to
/// maps from strings to strings; `None` where it fails.
pub uninterp spec fn json_text(store: Catalog) -> Option<Seq<char>>;

/// Calls `serde_json::from_str` for a `BTreeMap` of `BTreeMap`s of strings
/// and hands out the entries of the maps, which a `BTreeMap` walks in the
/// order of its keys. The contract gives what is read the name `json_rows`
/// and claims nothing of what it holds.
#[verifier::external_body]
fn read_json(text: &str) -> (r: Result<Vec<(String, Vec<(String, String)>)>, serde_json::Error>)
    ensures
        match r {
            Ok(rows) => json_rows(text@) == Some(rows.deep_view()),
            Err(_) => json_rows(text@) is None,
        },
{
    let parsed: std::collections::BTreeMap<String, std::collections::BTreeMap<String, String>> =
        serde_json::from_str(text)?;
    Ok(parsed.into_iter().map(|(name, vars)| (name, vars.into_iter().collect())).collect())
}

/// Calls `serde_json::to_string_pretty` on the store as a `BTreeMap` of
/// `BTreeMap`s of strings, which hold the rows of the store and of its
/// presets. The contract gives the text the name `json_text` and claims
/// nothing of what it holds.
#[verifier::external_body]
fn write_json(presets: &Presets) -> (r: Result<String, serde_json::Error>)
    ensures
        match r {
            Ok(text) => json_text(presets.deep_view()) == Some(text@),
            Err(_) => json_text(presets.deep_view()) is None,
        },
{
    let maps: std::collections::BTreeMap<&String, std::collections::BTreeMap<&String, &String>> =
        presets.rows.iter().map(
            |row| (&row.0, row.1.rows.iter().map(|var| (&var.0, &var.1)).collect()),
        ).collect();
    serde_json::to_string_pretty(&maps)
}

/// The store that rows stand for: a later row replaces an earlier one of
/// the same name.
pub open spec fn catalog_from(rows: PresetRows) -> Catalog
    decreases rows.len(),
{
    if rows.len() == 0 {
        Map::empty()
    } else {
        catalog_from(rows.drop_last()).insert(
            rows.last().0,
            with_rows(Map::empty(), rows.last().1),
        )
    }
}

/// The store that a stored text stands for. A store that was never
/// written, or whose text is blank, is empty; a text from which no store
/// can be read is a fault.
pub open spec fn loaded(content: Option<Seq<char>>) -> Result<Catalog, Fault> {
    match content {
        None => Ok(Map::empty()),
        Some(text) => if blank(text) {
            Ok(Map::empty())
        } else {
            match json_rows(text) {
                Some(rows) => Ok(catalog_from(rows)),
                None => Err(Fault::StoreCorrupt),
            }
        },
    }
}

/// The active preset that a stored record stands for: the record without
/// the white space around it, or none where the record was never written
/// or is blank.
pub open spec fn recorded(content: Option<Seq<char>>) -> Option<Seq<char>> {
    match content {
        None => None,
        Some(text) => if blank(text) {
            None
        } else {
            Some(trimmed(text))
        },
    }
}

/// Builds the preset that rows of variables stand for.
pub fn preset_from_rows(rows: &Vec<(String, String)>) -> (r: Preset)
    ensures
        r.deep_view() == with_rows(Map::empty(), rows.deep_view()),
{
    let mut vars: Preset = Table::new();
    assert(vars.deep_view() =~= Map::<Seq<char>, Seq<char>>::empty());
    assign_rows(&mut vars, rows);
    vars
}

/// Builds the store that rows of presets stand for.
pub fn presets_from_rows(rows: &Vec<(String, Vec<(String, String)>)>) -> (r: Presets)
    ensures
        r.deep_view() == catalog_from(rows.deep_view()),
{
    let mut store: Presets = Table::new();
    proof {
        assert(rows.deep_view().take(0) =~= Seq::<(Seq<char>, Rows)>::empty());
        assert(store.deep_view() =~= Map::<Seq<char>, Assignments>::empty());
    }
    let mut i: usize = 0;
    while i < rows.len()
        invariant
            i <= rows.len(),
            store.deep_view() == catalog_from(rows.deep_view().take(i as int)),
        decreases rows.len() - i,
    {
        let name = rows[i].0.clone();
        let vars = preset_from_rows(&rows[i].1);
        let ghost held = store@;
        store.insert(name, vars);
        proof {
            lemma_deep_insert(held, name@, vars);
            let upto = rows.deep_view().take(i + 1);
            assert(upto.drop_last() =~= rows.deep_view().take(i as int));
            assert(upto.last() == rows.deep_view()[i as int]);
        }
        i += 1;
    }
    proof {
        assert(rows.deep_view().take(rows.len() as int) =~= rows.deep_view());
    }
    store
}

/// Reads the store from its stored text; `None` stands for a store that
/// was never written.
pub fn load_presets(content: Option<&str>) -> (r: Result<Presets, EnvError>)
    ensures
        match loaded(text_of(content)) {
            Ok(store) => r matches Ok(presets) && presets.deep_view() == store,
            Err(fault) => r matches Err(e) && e@ == fault,
        },
{
    let empty: Presets = Table::new();
    assert(empty.deep_view() =~= Map::<Seq<char>, Assignments>::empty());
    match content {
        None => Ok(empty),
        Some(text) => {
            proof {
                lemma_trimmed_blank(text@);
            }
            if trim(text).unicode_len() == 0 {
                Ok(empty)
            } else {
                match read_json(text) {
                    Ok(rows) => Ok(presets_from_rows(&rows)),
                    Err(_) => Err(EnvError::StoreCorrupt),
                }
            }
        },
    }
}

/// Writes the store as the text to be stored.
pub fn save_presets(presets: &Presets) -> (r: Result<String, EnvError>)
    ensures
        match json_text(presets.deep_view()) {
            Some(text) => r matches Ok(written) && written@ == text,
            None => r matches Err(e) && e@ == Fault::StoreWriteError,
        },
{
    match write_json(presets) {
        Ok(text) => Ok(text),
        Err(_) => Err(EnvError::StoreWriteError),
    }
}

/// Reads the name of the active preset from its stored record; `None`
/// stands for a record that was never written.
pub fn load_active_preset_name(content: Option<&str>) -> (r: Option<String>)
    ensures
        match recorded(text_of(content)) {
            Some(name) => r matches Some(found) && found@ == name,
            None => r is None,
        },
{
    match content {
        None => None,
        Some(text) => {
            proof {
                lemma_trimmed_blank(text@);
            }
            let name = trim(text);
            if name.unicode_len() == 0 {
                None
            } else {
                Some(String::from_str(name))
            }
        },
    }
}

} // verus!
