//! The declarative description of a desired environment, and how one is
//! captured from a store.
use vstd::prelude::*;

use crate::envvar::{keys_unique, pairs_map, same_text, EnvironmentVariable, PATH, PATH_DELIMITER};
use crate::error::EnvError;

verus! {

/// The only snapshot format version this library reads and writes.
pub const SNAPSHOT_VERSION: u32 = 1;

/// One desired variable with its policy.
#[derive(Debug)]
pub struct ValueDetail {
    pub key: String,
    pub value: String,
    /// Replace the value even where the variable is already defined.
    pub overwrite: bool,
    /// Empty for a scalar; else the delimiter of a list-shaped value.
    pub delimiter: String,
    /// Negative to append to the list; else the position to insert at.
    pub insert: i32,
}

/// A versioned, ordered set of desired variables.
#[derive(Debug)]
pub struct Config {
    pub version: u32,
    pub data: Vec<ValueDetail>,
}

/// The insert position that means the end of the list.
pub open spec fn spec_default_append() -> i32 {
    -1i32
}

/// The overwrite flag of an entry that does not give one.
pub fn default_overwrite() -> (r: bool)
    ensures
        r == false,
{
    false
}

/// The delimiter of an entry that does not give one: a scalar.
pub fn default_delimiter() -> (r: String)
    ensures
        r@ == Seq::<char>::empty(),
{
    String::new()
}

/// The insert position of an entry that does not give one: the end.
pub fn default_append() -> (r: i32)
    ensures
        r == spec_default_append(),
{
    -1
}

/// The delimiter that a captured variable named `key` is given: the search
/// path's for the search path, none for any other.
pub open spec fn delimiter_for(key: Seq<char>) -> Seq<char> {
    if key == PATH@ {
        PATH_DELIMITER@
    } else {
        Seq::empty()
    }
}

/// `e` is the entry that capturing `key` with `value` gives.
pub open spec fn is_captured(e: ValueDetail, key: Seq<char>, value: Seq<char>) -> bool {
    &&& e.key@ == key
    &&& e.value@ == value
    &&& !e.overwrite
    &&& e.delimiter@ == delimiter_for(key)
    &&& e.insert == spec_default_append()
}

/// The entry for a variable as it is captured from the store.
pub fn create_value(key: String, value: String) -> (r: ValueDetail)
    ensures
        is_captured(r, key@, value@),
{
    let delimiter = if same_text(key.as_str(), PATH) {
        PATH_DELIMITER.to_owned()
    } else {
        default_delimiter()
    };
    ValueDetail {
        key,
        value,
        overwrite: default_overwrite(),
        delimiter,
        insert: default_append(),
    }
}

/// `c` is the snapshot of the pairs `l`, in their order.
pub open spec fn is_snapshot_of(c: Config, l: Seq<(String, String)>) -> bool {
    &&& c.version == SNAPSHOT_VERSION
    &&& c.data@.len() == l.len()
    &&& forall|i: int| 0 <= i < l.len() ==> is_captured(#[trigger] c.data@[i], l[i].0@, l[i].1@)
}

/// The snapshot of the listed variables `list`.
pub fn snapshot_of(list: &Vec<(String, String)>) -> (r: Config)
    ensures
        is_snapshot_of(r, list@),
{
    let mut data: Vec<ValueDetail> = Vec::new();
    let mut i: usize = 0;
    while i < list.len()
        invariant
            i <= list.len(),
            data@.len() == i,
            forall|j: int| 0 <= j < i ==> is_captured(#[trigger] data@[j], list@[j].0@, list@[j].1@),
        decreases list.len() - i,
    {
        data.push(create_value(list[i].0.clone(), list[i].1.clone()));
        i = i + 1;
    }
    Config { version: SNAPSHOT_VERSION, data }
}

/// `c` is a snapshot of the variables `state`, listed in some order.
pub open spec fn captures(c: Config, state: Map<Seq<char>, Seq<char>>) -> bool {
    exists|l: Seq<(String, String)>|
        keys_unique(l) && pairs_map(l) == state && #[trigger] is_snapshot_of(c, l)
}

/// The snapshot of every variable of `store`.
pub fn export_snapshot<S: EnvironmentVariable>(store: &S) -> (r: Result<Config, EnvError>)
    requires
        store.wf(),
    ensures
        r matches Ok(c) ==> captures(c, store.state()),
        r matches Err(e) ==> e == EnvError::StoreUnavailable && !store.available(),
{
    match store.list() {
        Ok(l) => {
            let c = snapshot_of(&l);
            assert(keys_unique(l@) && pairs_map(l@) == store.state() && is_snapshot_of(c, l@));
            assert(captures(c, store.state()));
            Ok(c)
        },
        Err(e) => Err(e),
    }
}

} // verus!
