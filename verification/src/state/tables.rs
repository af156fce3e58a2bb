//! The tables of the store and the type of value that each of them holds.

use crate::text::same;
use vstd::prelude::*;

verus! {

/// The type of a table's values. Keys are texts in every table.
#[derive(Clone, Copy, Debug, PartialEq, Eq, Structural)]
pub enum Shape {
    Bytes,
    U64,
    I64,
}

/// Every table, in ascending order.
pub const ALL_TABLES: [&'static str; 31] = [
    "actions",
    "app_baselines",
    "app_shadow",
    "app_stateful",
    "auth",
    "budget",
    "cases",
    "cold_archives",
    "cold_deletions",
    "cold_meta",
    "datasets",
    "decisions",
    "env_observations",
    "env_sightings",
    "env_transitions",
    "false_negatives",
    "feedback",
    "findings",
    "hunts",
    "incident_outcomes",
    "ingest_seq",
    "mistakes",
    "predictions",
    "proposals",
    "query_plans",
    "registry",
    "registry_promotions",
    "silences",
    "suppression",
    "templates",
    "tombstones",
];

/// Every table with the type of its values.
///
/// The ledger of deletions and the erasure tombstones are among them: a backup
/// that left them out would bring data back without the record that it had been
/// deleted, or without the duty to keep erasing it.
pub const SHAPES: [(&'static str, Shape); 31] = [
    ("actions", Shape::Bytes),
    ("app_baselines", Shape::Bytes),
    ("app_shadow", Shape::Bytes),
    ("app_stateful", Shape::Bytes),
    ("auth", Shape::Bytes),
    ("budget", Shape::U64),
    ("cases", Shape::Bytes),
    ("cold_archives", Shape::Bytes),
    ("cold_deletions", Shape::Bytes),
    ("cold_meta", Shape::I64),
    ("datasets", Shape::Bytes),
    ("decisions", Shape::Bytes),
    ("env_observations", Shape::Bytes),
    ("env_sightings", Shape::Bytes),
    ("env_transitions", Shape::Bytes),
    ("false_negatives", Shape::Bytes),
    ("feedback", Shape::Bytes),
    ("findings", Shape::Bytes),
    ("hunts", Shape::Bytes),
    ("incident_outcomes", Shape::Bytes),
    ("ingest_seq", Shape::Bytes),
    ("mistakes", Shape::Bytes),
    ("predictions", Shape::Bytes),
    ("proposals", Shape::Bytes),
    ("query_plans", Shape::Bytes),
    ("registry", Shape::Bytes),
    ("registry_promotions", Shape::Bytes),
    ("silences", Shape::Bytes),
    ("suppression", Shape::U64),
    ("templates", Shape::I64),
    ("tombstones", Shape::Bytes),
];

/// The type of the values of the table of that name; no other name is a table.
pub open spec fn shape_named(name: Seq<char>) -> Option<Shape> {
    shape_from(name, 0)
}

/// The type of the first of the tables from `i` on that has the name.
pub open spec fn shape_from(name: Seq<char>, i: int) -> Option<Shape>
    decreases SHAPES@.len() - i,
{
    if i >= SHAPES@.len() || i < 0 {
        None
    } else if SHAPES@[i].0@ == name {
        Some(SHAPES@[i].1)
    } else {
        shape_from(name, i + 1)
    }
}

/// The type of the values of the table of that name.
pub fn shape_of(name: &str) -> (r: Option<Shape>)
    ensures
        r == shape_named(name@),
{
    let mut i: usize = 0;
    while i < 31
        invariant
            i <= 31,
            SHAPES@.len() == 31,
            shape_named(name@) == shape_from(name@, i as int),
        decreases 31 - i,
    {
        if same(SHAPES[i].0, name) {
            return Some(SHAPES[i].1);
        }
        i += 1;
    }
    None
}

/// The table of types names every table of the store, and no other: a table that
/// it left out would be left out of every backup.
pub proof fn shapes_cover_the_schema()
    ensures
        SHAPES@.len() == ALL_TABLES@.len(),
        forall|i: int| 0 <= i < ALL_TABLES@.len() ==> SHAPES@[i].0@ == (#[trigger] ALL_TABLES@[i])@,
{
    assert forall|i: int| 0 <= i < 31 implies SHAPES@[i].0@ == (#[trigger] ALL_TABLES@[i])@ by {
        if i == 0 {
        } else if i == 1 {
        } else if i == 2 {
        } else if i == 3 {
        } else if i == 4 {
        } else if i == 5 {
        } else if i == 6 {
        } else if i == 7 {
        } else if i == 8 {
        } else if i == 9 {
        } else if i == 10 {
        } else if i == 11 {
        } else if i == 12 {
        } else if i == 13 {
        } else if i == 14 {
        } else if i == 15 {
        } else if i == 16 {
        } else if i == 17 {
        } else if i == 18 {
        } else if i == 19 {
        } else if i == 20 {
        } else if i == 21 {
        } else if i == 22 {
        } else if i == 23 {
        } else if i == 24 {
        } else if i == 25 {
        } else if i == 26 {
        } else if i == 27 {
        } else if i == 28 {
        } else if i == 29 {
        } else if i == 30 {
        }
    }
}

/// A name is that of a table exactly where the tables of the store have it.
pub proof fn a_table_is_one_of_the_store(name: Seq<char>)
    ensures
        shape_named(name) is Some <==> exists|i: int|
            0 <= i < ALL_TABLES@.len() && (#[trigger] ALL_TABLES@[i])@ == name,
{
    shapes_cover_the_schema();
    a_shape_is_listed(name, 0);
    if shape_named(name) is Some {
        let i = choose|i: int| 0 <= i < SHAPES@.len() && (#[trigger] SHAPES@[i]).0@ == name;
        assert(ALL_TABLES@[i]@ == name);
    }
    if exists|i: int| 0 <= i < ALL_TABLES@.len() && (#[trigger] ALL_TABLES@[i])@ == name {
        let i = choose|i: int| 0 <= i < ALL_TABLES@.len() && (#[trigger] ALL_TABLES@[i])@ == name;
        assert(SHAPES@[i].0@ == name);
    }
}

proof fn a_shape_is_listed(name: Seq<char>, k: int)
    requires
        0 <= k <= SHAPES@.len(),
    ensures
        shape_from(name, k) is Some <==> exists|i: int|
            k <= i < SHAPES@.len() && (#[trigger] SHAPES@[i]).0@ == name,
    decreases SHAPES@.len() - k,
{
    if k < SHAPES@.len() {
        a_shape_is_listed(name, k + 1);
        if SHAPES@[k].0@ != name && shape_from(name, k) is Some {
            let i = choose|i: int| k + 1 <= i < SHAPES@.len() && (#[trigger] SHAPES@[i]).0@ == name;
            assert(SHAPES@[i].0@ == name);
        }
    }
}

/// A table holds the type of values that it is listed with.
pub proof fn a_table_holds_what_it_is_listed_with(name: Seq<char>)
    ensures
        shape_named(name) matches Some(s) ==> exists|i: int|
            0 <= i < SHAPES@.len() && (#[trigger] SHAPES@[i]).0@ == name && SHAPES@[i].1 == s,
{
    a_shape_is_the_listed_one(name, 0);
}

proof fn a_shape_is_the_listed_one(name: Seq<char>, k: int)
    requires
        0 <= k <= SHAPES@.len(),
    ensures
        shape_from(name, k) matches Some(s) ==> exists|i: int|
            k <= i < SHAPES@.len() && (#[trigger] SHAPES@[i]).0@ == name && SHAPES@[i].1 == s,
    decreases SHAPES@.len() - k,
{
    if k < SHAPES@.len() {
        a_shape_is_the_listed_one(name, k + 1);
        if SHAPES@[k].0@ != name {
            if let Some(s) = shape_from(name, k) {
                let i = choose|i: int|
                    k + 1 <= i < SHAPES@.len() && (#[trigger] SHAPES@[i]).0@ == name && SHAPES@[i].1
                        == s;
                assert(SHAPES@[i].0@ == name);
            }
        } else {
            assert(SHAPES@[k].0@ == name);
        }
    }
}

} // verus!
