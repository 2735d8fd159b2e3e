//! The environment-variable store and the list operations layered on it.
use vstd::prelude::*;

use crate::error::EnvError;
use crate::list_codec::{decode, decode_list, encode_list, join_list, views};

verus! {

/// Index `i` of `l` holds key `k`.
pub open spec fn key_at(l: Seq<(String, String)>, k: Seq<char>, i: int) -> bool {
    0 <= i < l.len() && l[i].0@ == k
}

/// No key occurs twice in `l`.
pub open spec fn keys_unique(l: Seq<(String, String)>) -> bool {
    forall|i: int, j: int| 0 <= i < l.len() && 0 <= j < l.len() && i != j ==> l[i].0@ != l[j].0@
}

/// The mapping from name to value that the pairs `l` list.
pub open spec fn pairs_map(l: Seq<(String, String)>) -> Map<Seq<char>, Seq<char>> {
    Map::new(
        |k: Seq<char>| exists|i: int| key_at(l, k, i),
        |k: Seq<char>| l[choose|i: int| key_at(l, k, i)].1@,
    )
}

/// Whether `r`, the outcome of a read of `name`, agrees with the variables
/// `state` of a store that is `available` or not.
pub open spec fn read_outcome<T>(
    r: Result<T, EnvError>,
    state: Map<Seq<char>, Seq<char>>,
    available: bool,
    name: Seq<char>,
) -> bool {
    match r {
        Ok(_) => state.contains_key(name),
        Err(e) => (e == EnvError::NotFound && !state.contains_key(name)) || (e
            == EnvError::StoreUnavailable && !available),
    }
}

/// `xs` without the tokens equal to `v`, the others in their order.
pub open spec fn without(xs: Seq<Seq<char>>, v: Seq<char>) -> Seq<Seq<char>> {
    xs.filter(|t: Seq<char>| t != v)
}

/// A durable store of environment variables.
pub trait EnvironmentVariable {
    /// The variables that the store holds, by name.
    spec fn state(&self) -> Map<Seq<char>, Seq<char>>;

    /// The backing store can be opened.
    spec fn available(&self) -> bool;

    /// The store's own consistency condition, which every operation keeps.
    spec fn wf(&self) -> bool;

    /// Every variable with its value.
    fn list(&self) -> (r: Result<Vec<(String, String)>, EnvError>)
        requires
            self.wf(),
        ensures
            match r {
                Ok(l) => keys_unique(l@) && pairs_map(l@) == self.state(),
                Err(e) => e == EnvError::StoreUnavailable && !self.available(),
            },
    ;

    /// The value of `name`.
    fn get(&self, name: &String) -> (r: Result<String, EnvError>)
        requires
            self.wf(),
        ensures
            read_outcome(r, self.state(), self.available(), name@),
            r matches Ok(v) ==> v@ == self.state()[name@],
            self.available() && self.state().contains_key(name@) ==> r is Ok,
    ;

    /// Creates or overwrites `name`.
    fn set(&mut self, name: &String, value: &String) -> (r: Result<(), EnvError>)
        requires
            old(self).wf(),
        ensures
            final(self).wf(),
            final(self).available() == old(self).available(),
            r is Ok ==> final(self).state() == old(self).state().insert(name@, value@),
            r is Err ==> r == Err::<(), EnvError>(EnvError::StoreUnavailable) && !old(
                self,
            ).available() && final(self).state() == old(self).state(),
            old(self).available() ==> r is Ok,
    ;

    /// Removes `name`.
    fn delete(&mut self, name: &String) -> (r: Result<(), EnvError>)
        requires
            old(self).wf(),
        ensures
            final(self).wf(),
            final(self).available() == old(self).available(),
            read_outcome(r, old(self).state(), old(self).available(), name@),
            r is Ok ==> final(self).state() == old(self).state().remove(name@),
            r is Err ==> final(self).state() == old(self).state(),
            old(self).available() && old(self).state().contains_key(name@) ==> r is Ok,
    ;

    /// The list that `name` holds, split on `delimiter`.
    fn get_list(&self, name: &String, delimiter: &String) -> (r: Result<Vec<String>, EnvError>)
        requires
            self.wf(),
        ensures
            read_outcome(r, self.state(), self.available(), name@),
            r matches Ok(l) ==> views(l@) == decode_list(self.state()[name@], delimiter@),
            self.available() && self.state().contains_key(name@) ==> r is Ok,
    {
        match self.get(name) {
            Ok(v) => Ok(decode(v.as_str(), delimiter.as_str())),
            Err(e) => Err(e),
        }
    }

    /// Writes `values` joined by `delimiter` to `name`.
    fn set_list(&mut self, name: &String, values: &Vec<String>, delimiter: &String) -> (r: Result<
        (),
        EnvError,
    >)
        requires
            old(self).wf(),
        ensures
            final(self).wf(),
            final(self).available() == old(self).available(),
            r is Ok ==> final(self).state() == old(self).state().insert(
                name@,
                encode_list(views(values@), delimiter@),
            ),
            r is Err ==> r == Err::<(), EnvError>(EnvError::StoreUnavailable) && !old(
                self,
            ).available() && final(self).state() == old(self).state(),
            old(self).available() ==> r is Ok,
    {
        let s = join_list(values, delimiter.as_str());
        self.set(name, &s)
    }

    /// Adds `value` at the end of the list that `name` holds.
    fn append_list(&mut self, name: &String, value: &String, delimiter: &String) -> (r: Result<
        (),
        EnvError,
    >)
        requires
            old(self).wf(),
        ensures
            final(self).wf(),
            final(self).available() == old(self).available(),
            read_outcome(r, old(self).state(), old(self).available(), name@),
            r is Ok ==> final(self).state() == old(self).state().insert(
                name@,
                encode_list(decode_list(old(self).state()[name@], delimiter@).push(value@), delimiter@),
            ),
            r is Err ==> final(self).state() == old(self).state(),
            old(self).available() && old(self).state().contains_key(name@) ==> r is Ok,
    {
        match self.get_list(name, delimiter) {
            Ok(l) => {
                let mut ll = l;
                ll.push(value.clone());
                proof {
                    assert(views(ll@) =~= decode_list(old(self).state()[name@], delimiter@).push(value@));
                }
                self.set_list(name, &ll, delimiter)
            },
            Err(e) => Err(e),
        }
    }

    /// Puts `value` at position `to` of the list that `name` holds, the
    /// tokens from `to` on moving one place right.
    fn insert_list(&mut self, name: &String, value: &String, to: usize, delimiter: &String) -> (r:
        Result<(), EnvError>)
        requires
            old(self).wf(),
        ensures
            final(self).wf(),
            final(self).available() == old(self).available(),
            match r {
                Ok(_) => old(self).state().contains_key(name@),
                Err(e) => (e == EnvError::NotFound && !old(self).state().contains_key(name@)) || (e
                    == EnvError::StoreUnavailable && !old(self).available()) || (e
                    == EnvError::IndexOutOfRange && old(self).state().contains_key(name@) && to
                    > decode_list(old(self).state()[name@], delimiter@).len()),
            },
            r is Ok ==> final(self).state() == old(self).state().insert(
                name@,
                encode_list(
                    decode_list(old(self).state()[name@], delimiter@).insert(to as int, value@),
                    delimiter@,
                ),
            ),
            r is Err ==> final(self).state() == old(self).state(),
            old(self).available() && old(self).state().contains_key(name@) ==> (r is Ok <==> to
                <= decode_list(old(self).state()[name@], delimiter@).len()),
    {
        match self.get_list(name, delimiter) {
            Ok(l) => {
                if to > l.len() {
                    return Err(EnvError::IndexOutOfRange);
                }
                let mut ll = l;
                ll.insert(to, value.clone());
                proof {
                    assert(views(ll@) =~= decode_list(old(self).state()[name@], delimiter@).insert(
                        to as int,
                        value@,
                    ));
                }
                self.set_list(name, &ll, delimiter)
            },
            Err(e) => Err(e),
        }
    }

    /// Takes the token at position `from` out of the list that `name` holds.
    fn remove_list(&mut self, name: &String, from: usize, delimiter: &String) -> (r: Result<
        (),
        EnvError,
    >)
        requires
            old(self).wf(),
        ensures
            final(self).wf(),
            final(self).available() == old(self).available(),
            match r {
                Ok(_) => old(self).state().contains_key(name@),
                Err(e) => (e == EnvError::NotFound && !old(self).state().contains_key(name@)) || (e
                    == EnvError::StoreUnavailable && !old(self).available()) || (e
                    == EnvError::IndexOutOfRange && old(self).state().contains_key(name@) && from
                    >= decode_list(old(self).state()[name@], delimiter@).len()),
            },
            r is Ok ==> final(self).state() == old(self).state().insert(
                name@,
                encode_list(
                    decode_list(old(self).state()[name@], delimiter@).remove(from as int),
                    delimiter@,
                ),
            ),
            r is Err ==> final(self).state() == old(self).state(),
            old(self).available() && old(self).state().contains_key(name@) ==> (r is Ok <==> from
                < decode_list(old(self).state()[name@], delimiter@).len()),
    {
        match self.get_list(name, delimiter) {
            Ok(l) => {
                if from >= l.len() {
                    return Err(EnvError::IndexOutOfRange);
                }
                let mut ll = l;
                ll.remove(from);
                proof {
                    assert(views(ll@) =~= decode_list(old(self).state()[name@], delimiter@).remove(
                        from as int,
                    ));
                }
                self.set_list(name, &ll, delimiter)
            },
            Err(e) => Err(e),
        }
    }

    /// Takes every token equal to `value` out of the list that `name` holds;
    /// where none is equal, the store is left as it is.
    fn remove_list_from(&mut self, name: &String, value: &String, delimiter: &String) -> (r:
        Result<(), EnvError>)
        requires
            old(self).wf(),
        ensures
            final(self).wf(),
            final(self).available() == old(self).available(),
            read_outcome(r, old(self).state(), old(self).available(), name@),
            r is Ok && !decode_list(old(self).state()[name@], delimiter@).contains(value@)
                ==> final(self).state() == old(self).state(),
            r is Ok && decode_list(old(self).state()[name@], delimiter@).contains(value@)
                ==> final(self).state() == old(self).state().insert(
                name@,
                encode_list(without(decode_list(old(self).state()[name@], delimiter@), value@), delimiter@),
            ),
            r is Err ==> final(self).state() == old(self).state(),
            old(self).available() && old(self).state().contains_key(name@) ==> r is Ok,
    {
        match self.get_list(name, delimiter) {
            Ok(l) => {
                let ghost xs = views(l@);
                let mut kept: Vec<String> = Vec::new();
                let mut found = false;
                let mut k: usize = 0;
                while k < l.len()
                    invariant
                        xs == views(l@),
                        k <= l.len(),
                        views(kept@) == without(xs.subrange(0, k as int), value@),
                        found == xs.subrange(0, k as int).contains(value@),
                    decreases l.len() - k,
                {
                    proof {
                        let ys = xs.subrange(0, k as int + 1);
                        assert(ys.drop_last() =~= xs.subrange(0, k as int));
                        assert(ys.last() == l@[k as int]@);
                        reveal(Seq::filter);
                        if ys.contains(value@) {
                            let w = choose|w: int| 0 <= w < ys.len() && ys[w] == value@;
                            if w < k {
                                assert(xs.subrange(0, k as int)[w] == value@);
                            }
                        }
                        if xs.subrange(0, k as int).contains(value@) {
                            let w = choose|w: int| 0 <= w < k && xs.subrange(0, k as int)[w] == value@;
                            assert(ys[w] == value@);
                        }
                    }
                    if l[k] == *value {
                        found = true;
                    } else {
                        let t = l[k].clone();
                        proof {
                            assert(views(kept@.push(t)) =~= views(kept@).push(t@));
                        }
                        kept.push(t);
                    }
                    proof {
                        if l@[k as int]@ == value@ {
                            assert(xs.subrange(0, k as int + 1)[k as int] == value@);
                        }
                    }
                    k = k + 1;
                }
                assert(xs.subrange(0, l.len() as int) =~= xs);
                if !found {
                    return Ok(());
                }
                self.set_list(name, &kept, delimiter)
            },
            Err(e) => Err(e),
        }
    }

    /// The name of the search-path variable.
    spec fn path_key() -> Seq<char>;

    /// The delimiter between the entries of the search path.
    spec fn path_delimiter() -> Seq<char>;

    /// The name of the search-path variable and its delimiter.
    fn path_variable() -> (r: (&'static str, &'static str))
        ensures
            r.0@ == Self::path_key(),
            r.1@ == Self::path_delimiter(),
    ;

    /// The entries of the search path.
    fn get_path(&self) -> (r: Result<Vec<String>, EnvError>)
        requires
            self.wf(),
        ensures
            read_outcome(r, self.state(), self.available(), Self::path_key()),
            r matches Ok(l) ==> views(l@) == decode_list(self.state()[Self::path_key()], Self::path_delimiter()),
            self.available() && self.state().contains_key(Self::path_key()) ==> r is Ok,
    {
        let (name, delimiter) = Self::path_variable();
        self.get_list(&name.to_owned(), &delimiter.to_owned())
    }

    /// Writes `paths` as the search path.
    fn set_path(&mut self, paths: &Vec<String>) -> (r: Result<(), EnvError>)
        requires
            old(self).wf(),
        ensures
            final(self).wf(),
            final(self).available() == old(self).available(),
            r is Ok ==> final(self).state() == old(self).state().insert(
                Self::path_key(),
                encode_list(views(paths@), Self::path_delimiter()),
            ),
            r is Err ==> r == Err::<(), EnvError>(EnvError::StoreUnavailable) && !old(
                self,
            ).available() && final(self).state() == old(self).state(),
            old(self).available() ==> r is Ok,
    {
        let (name, delimiter) = Self::path_variable();
        self.set_list(&name.to_owned(), paths, &delimiter.to_owned())
    }

    /// Adds `path` at the end of the search path.
    fn append_path(&mut self, path: &str) -> (r: Result<(), EnvError>)
        requires
            old(self).wf(),
        ensures
            final(self).wf(),
            final(self).available() == old(self).available(),
            read_outcome(r, old(self).state(), old(self).available(), Self::path_key()),
            r is Ok ==> final(self).state() == old(self).state().insert(
                Self::path_key(),
                encode_list(decode_list(old(self).state()[Self::path_key()], Self::path_delimiter()).push(path@), Self::path_delimiter()),
            ),
            r is Err ==> final(self).state() == old(self).state(),
            old(self).available() && old(self).state().contains_key(Self::path_key()) ==> r is Ok,
    {
        let (name, delimiter) = Self::path_variable();
        self.append_list(&name.to_owned(), &path.to_owned(), &delimiter.to_owned())
    }

    /// Puts `path` at position `to` of the search path.
    fn insert_path(&mut self, path: &str, to: usize) -> (r: Result<(), EnvError>)
        requires
            old(self).wf(),
        ensures
            final(self).wf(),
            final(self).available() == old(self).available(),
            match r {
                Ok(_) => old(self).state().contains_key(Self::path_key()),
                Err(e) => (e == EnvError::NotFound && !old(self).state().contains_key(Self::path_key())) || (e
                    == EnvError::StoreUnavailable && !old(self).available()) || (e
                    == EnvError::IndexOutOfRange && old(self).state().contains_key(Self::path_key()) && to
                    > decode_list(old(self).state()[Self::path_key()], Self::path_delimiter()).len()),
            },
            r is Ok ==> final(self).state() == old(self).state().insert(
                Self::path_key(),
                encode_list(
                    decode_list(old(self).state()[Self::path_key()], Self::path_delimiter()).insert(to as int, path@),
                    Self::path_delimiter(),
                ),
            ),
            r is Err ==> final(self).state() == old(self).state(),
            old(self).available() && old(self).state().contains_key(Self::path_key()) ==> (r is Ok <==> to
                <= decode_list(old(self).state()[Self::path_key()], Self::path_delimiter()).len()),
    {
        let (name, delimiter) = Self::path_variable();
        self.insert_list(&name.to_owned(), &path.to_owned(), to, &delimiter.to_owned())
    }

    /// Takes the entry at position `from` out of the search path.
    fn remove_path(&mut self, from: usize) -> (r: Result<(), EnvError>)
        requires
            old(self).wf(),
        ensures
            final(self).wf(),
            final(self).available() == old(self).available(),
            match r {
                Ok(_) => old(self).state().contains_key(Self::path_key()),
                Err(e) => (e == EnvError::NotFound && !old(self).state().contains_key(Self::path_key())) || (e
                    == EnvError::StoreUnavailable && !old(self).available()) || (e
                    == EnvError::IndexOutOfRange && old(self).state().contains_key(Self::path_key()) && from
                    >= decode_list(old(self).state()[Self::path_key()], Self::path_delimiter()).len()),
            },
            r is Ok ==> final(self).state() == old(self).state().insert(
                Self::path_key(),
                encode_list(
                    decode_list(old(self).state()[Self::path_key()], Self::path_delimiter()).remove(from as int),
                    Self::path_delimiter(),
                ),
            ),
            r is Err ==> final(self).state() == old(self).state(),
            old(self).available() && old(self).state().contains_key(Self::path_key()) ==> (r is Ok <==> from
                < decode_list(old(self).state()[Self::path_key()], Self::path_delimiter()).len()),
    {
        let (name, delimiter) = Self::path_variable();
        self.remove_list(&name.to_owned(), from, &delimiter.to_owned())
    }

    /// Takes every entry equal to `path` out of the search path.
    fn remove_path_from(&mut self, path: &str) -> (r: Result<(), EnvError>)
        requires
            old(self).wf(),
        ensures
            final(self).wf(),
            final(self).available() == old(self).available(),
            read_outcome(r, old(self).state(), old(self).available(), Self::path_key()),
            r is Ok && !decode_list(old(self).state()[Self::path_key()], Self::path_delimiter()).contains(path@)
                ==> final(self).state() == old(self).state(),
            r is Ok && decode_list(old(self).state()[Self::path_key()], Self::path_delimiter()).contains(path@)
                ==> final(self).state() == old(self).state().insert(
                Self::path_key(),
                encode_list(without(decode_list(old(self).state()[Self::path_key()], Self::path_delimiter()), path@), Self::path_delimiter()),
            ),
            r is Err ==> final(self).state() == old(self).state(),
            old(self).available() && old(self).state().contains_key(Self::path_key()) ==> r is Ok,
    {
        let (name, delimiter) = Self::path_variable();
        self.remove_list_from(&name.to_owned(), &path.to_owned(), &delimiter.to_owned())
    }
}

/// The name of the search-path variable of the process environment.
pub const PATH: &'static str = "PATH";

/// The delimiter between the entries of the search path.
pub const PATH_DELIMITER: &'static str = ":";

/// Variables of the shell itself, which are never treated as user data.
pub open spec fn is_ignored(k: Seq<char>) -> bool {
    k == "_"@ || k == "PWD"@ || k == "SHLVL"@
}

/// The variables that a captured process environment `l` yields: the
/// ignored names left out, a later pair for a name replacing an earlier one.
pub open spec fn captured_map(l: Seq<(String, String)>) -> Map<Seq<char>, Seq<char>>
    decreases l.len(),
{
    if l.len() == 0 {
        Map::empty()
    } else if is_ignored(l.last().0@) {
        captured_map(l.drop_last())
    } else {
        captured_map(l.drop_last()).insert(l.last().0@, l.last().1@)
    }
}

proof fn lemma_value_at(l: Seq<(String, String)>, k: Seq<char>, i: int)
    requires
        keys_unique(l),
        key_at(l, k, i),
    ensures
        pairs_map(l).contains_key(k),
        pairs_map(l)[k] == l[i].1@,
{
    let j = choose|j: int| key_at(l, k, j);
    assert(key_at(l, k, j));
    assert(j == i);
}

proof fn lemma_same_views(a: Seq<(String, String)>, b: Seq<(String, String)>)
    requires
        keys_unique(a),
        a.len() == b.len(),
        forall|i: int| 0 <= i < a.len() ==> a[i].0@ == b[i].0@ && a[i].1@ == b[i].1@,
    ensures
        keys_unique(b),
        pairs_map(a) == pairs_map(b),
{
    assert forall|k: Seq<char>| pairs_map(a).contains_key(k) == pairs_map(b).contains_key(k) by {
        if pairs_map(a).contains_key(k) {
            let i = choose|i: int| key_at(a, k, i);
            assert(key_at(b, k, i));
        }
        if pairs_map(b).contains_key(k) {
            let i = choose|i: int| key_at(b, k, i);
            assert(key_at(a, k, i));
        }
    }
    assert forall|k: Seq<char>| pairs_map(a).contains_key(k) implies pairs_map(a)[k]
        == pairs_map(b)[k] by {
        let i = choose|i: int| key_at(a, k, i);
        lemma_value_at(a, k, i);
        assert(key_at(b, k, i));
        lemma_value_at(b, k, i);
    }
    assert(pairs_map(a) =~= pairs_map(b));
}

proof fn lemma_update(l: Seq<(String, String)>, i: int, p: (String, String))
    requires
        keys_unique(l),
        0 <= i < l.len(),
        l[i].0@ == p.0@,
    ensures
        keys_unique(l.update(i, p)),
        pairs_map(l.update(i, p)) == pairs_map(l).insert(p.0@, p.1@),
{
    let m = l.update(i, p);
    assert forall|k: Seq<char>| #[trigger] pairs_map(m).contains_key(k) == pairs_map(l).insert(
        p.0@,
        p.1@,
    ).contains_key(k) by {
        if pairs_map(m).contains_key(k) {
            let j = choose|j: int| key_at(m, k, j);
            assert(key_at(l, k, j));
        }
        if pairs_map(l).contains_key(k) {
            let j = choose|j: int| key_at(l, k, j);
            assert(key_at(m, k, j));
        }
        if k == p.0@ {
            assert(key_at(m, k, i));
        }
    }
    assert forall|k: Seq<char>| pairs_map(m).contains_key(k) implies pairs_map(m)[k]
        == pairs_map(l).insert(p.0@, p.1@)[k] by {
        let j = choose|j: int| key_at(m, k, j);
        lemma_value_at(m, k, j);
        if k != p.0@ {
            assert(key_at(l, k, j));
            lemma_value_at(l, k, j);
        }
    }
    assert(pairs_map(m) =~= pairs_map(l).insert(p.0@, p.1@));
}

proof fn lemma_push(l: Seq<(String, String)>, p: (String, String))
    requires
        keys_unique(l),
        !pairs_map(l).contains_key(p.0@),
    ensures
        keys_unique(l.push(p)),
        pairs_map(l.push(p)) == pairs_map(l).insert(p.0@, p.1@),
{
    let m = l.push(p);
    assert forall|i: int| 0 <= i < l.len() implies m[i].0@ != p.0@ by {
        if m[i].0@ == p.0@ {
            assert(key_at(l, p.0@, i));
        }
    }
    assert forall|k: Seq<char>| #[trigger] pairs_map(m).contains_key(k) == pairs_map(l).insert(
        p.0@,
        p.1@,
    ).contains_key(k) by {
        if pairs_map(m).contains_key(k) {
            let j = choose|j: int| key_at(m, k, j);
            if j < l.len() {
                assert(key_at(l, k, j));
            }
        }
        if pairs_map(l).contains_key(k) {
            let j = choose|j: int| key_at(l, k, j);
            assert(key_at(m, k, j));
        }
        if k == p.0@ {
            assert(key_at(m, k, l.len() as int));
        }
    }
    assert forall|k: Seq<char>| pairs_map(m).contains_key(k) implies pairs_map(m)[k]
        == pairs_map(l).insert(p.0@, p.1@)[k] by {
        let j = choose|j: int| key_at(m, k, j);
        lemma_value_at(m, k, j);
        if k != p.0@ {
            assert(key_at(l, k, j));
            lemma_value_at(l, k, j);
        }
    }
    assert(pairs_map(m) =~= pairs_map(l).insert(p.0@, p.1@));
}

proof fn lemma_remove(l: Seq<(String, String)>, i: int)
    requires
        keys_unique(l),
        0 <= i < l.len(),
    ensures
        keys_unique(l.remove(i)),
        pairs_map(l.remove(i)) == pairs_map(l).remove(l[i].0@),
{
    let m = l.remove(i);
    let k0 = l[i].0@;
    assert forall|a: int, b: int| 0 <= a < m.len() && 0 <= b < m.len() && a != b implies m[a].0@
        != m[b].0@ by {
        let a2 = if a < i { a } else { a + 1 };
        let b2 = if b < i { b } else { b + 1 };
        assert(m[a] == l[a2] && m[b] == l[b2]);
    }
    assert forall|k: Seq<char>| #[trigger] pairs_map(m).contains_key(k) == pairs_map(l).remove(
        k0,
    ).contains_key(k) by {
        if pairs_map(m).contains_key(k) {
            let j = choose|j: int| key_at(m, k, j);
            let j2 = if j < i { j } else { j + 1 };
            assert(key_at(l, k, j2));
        }
        if pairs_map(l).contains_key(k) && k != k0 {
            let j = choose|j: int| key_at(l, k, j);
            let j2 = if j < i { j } else { j - 1 };
            assert(key_at(m, k, j2));
        }
    }
    assert forall|k: Seq<char>| pairs_map(m).contains_key(k) implies pairs_map(m)[k]
        == pairs_map(l).remove(k0)[k] by {
        let j = choose|j: int| key_at(m, k, j);
        lemma_value_at(m, k, j);
        let j2 = if j < i { j } else { j + 1 };
        assert(key_at(l, k, j2));
        lemma_value_at(l, k, j2);
    }
    assert(pairs_map(m) =~= pairs_map(l).remove(k0));
}

/// One `name=value` line for each pair of `l`, in order.
pub open spec fn rc_lines(l: Seq<(String, String)>) -> Seq<char>
    decreases l.len(),
{
    if l.len() == 0 {
        Seq::empty()
    } else {
        rc_lines(l.drop_last()) + l.last().0@ + seq!['='] + l.last().1@ + seq!['\n']
    }
}

/// The process environment, with the changes staged for a shell
/// initialization file.
pub struct Environment {
    vars: Vec<(String, String)>,
    shell: Option<String>,
}

impl Environment {
    /// The variables in the order in which they are listed.
    pub closed spec fn listing(&self) -> Seq<(String, String)> {
        self.vars@
    }

    /// The shell that the initialization file is written for, once chosen.
    pub closed spec fn shell_name(&self) -> Option<Seq<char>> {
        match self.shell {
            Some(s) => Some(s@),
            None => None,
        }
    }

    fn find(&self, name: &String) -> (r: Option<usize>)
        requires
            self.wf(),
        ensures
            match r {
                Some(i) => key_at(self.vars@, name@, i as int),
                None => !self.state().contains_key(name@),
            },
    {
        let mut i: usize = 0;
        while i < self.vars.len()
            invariant
                i <= self.vars.len(),
                forall|j: int| 0 <= j < i ==> self.vars@[j].0@ != name@,
            decreases self.vars.len() - i,
        {
            if self.vars[i].0 == *name {
                return Some(i);
            }
            i = i + 1;
        }
        proof {
            if self.state().contains_key(name@) {
                let j = choose|j: int| key_at(self.vars@, name@, j);
                assert(self.vars@[j].0@ != name@);
            }
        }
        None
    }

    fn put(&mut self, name: &String, value: &String)
        requires
            old(self).wf(),
        ensures
            final(self).wf(),
            final(self).state() == old(self).state().insert(name@, value@),
            final(self).shell_name() == old(self).shell_name(),
    {
        let p = (name.clone(), value.clone());
        match self.find(name) {
            Some(i) => {
                proof {
                    lemma_update(self.vars@, i as int, p);
                }
                self.vars.set(i, p);
            },
            None => {
                proof {
                    lemma_push(self.vars@, p);
                }
                self.vars.push(p);
            },
        }
    }

    /// Chooses `shell` as the shell that the initialization file is for,
    /// unless one was chosen before.
    pub fn init_shell(&mut self, shell: &String)
        ensures
            final(self).state() == old(self).state(),
            final(self).wf() == old(self).wf(),
            final(self).listing() == old(self).listing(),
            final(self).shell_name() == match old(self).shell_name() {
                Some(n) => Some(n),
                None => Some(shell@),
            },
    {
        if self.shell.is_none() {
            self.shell = Some(shell.clone());
        }
    }

    /// The shell that the initialization file is for, once chosen.
    pub fn shell(&self) -> (r: Option<&str>)
        ensures
            r matches Some(n) ==> self.shell_name() == Some(n@),
            r is None ==> self.shell_name() is None,
    {
        match &self.shell {
            Some(n) => Some(n.as_str()),
            None => None,
        }
    }

    /// The shell initialization file: one `name=value` line for each
    /// variable, in the order of the listing.
    pub fn rc_text(&self) -> (r: String)
        ensures
            r@ == rc_lines(self.listing()),
    {
        let mut out = String::new();
        let mut i: usize = 0;
        while i < self.vars.len()
            invariant
                i <= self.vars.len(),
                out@ == rc_lines(self.vars@.subrange(0, i as int)),
            decreases self.vars.len() - i,
        {
            proof {
                reveal_strlit("=");
                reveal_strlit("\n");
                let l = self.vars@.subrange(0, i as int + 1);
                assert(l.drop_last() =~= self.vars@.subrange(0, i as int));
            }
            out.append(self.vars[i].0.as_str());
            out.append("=");
            out.append(self.vars[i].1.as_str());
            out.append("\n");
            proof {
                let l = self.vars@.subrange(0, i as int + 1);
                assert(out@ =~= rc_lines(l.drop_last()) + l.last().0@ + seq!['='] + l.last().1@
                    + seq!['\n']);
            }
            i = i + 1;
        }
        assert(self.vars@.subrange(0, i as int) =~= self.vars@);
        out
    }

    /// A store over the captured process environment `captured`, pairs of
    /// name and value in the order the environment lists them.
    pub fn new(captured: &Vec<(String, String)>) -> (r: Environment)
        ensures
            r.wf(),
            r.state() == captured_map(captured@),
            r.shell_name() is None,
    {
        let mut env = Environment { vars: Vec::new(), shell: None };
        assert(pairs_map(env.vars@) =~= Map::<Seq<char>, Seq<char>>::empty());
        let mut k: usize = 0;
        while k < captured.len()
            invariant
                k <= captured.len(),
                env.wf(),
                env.state() == captured_map(captured@.subrange(0, k as int)),
                env.shell_name() is None,
            decreases captured.len() - k,
        {
            proof {
                let ys = captured@.subrange(0, k as int + 1);
                assert(ys.drop_last() =~= captured@.subrange(0, k as int));
                assert(ys.last() == captured@[k as int]);
            }
            if !is_ignored_name(captured[k].0.as_str()) {
                env.put(&captured[k].0, &captured[k].1);
            }
            k = k + 1;
        }
        assert(captured@.subrange(0, captured.len() as int) =~= captured@);
        env
    }
}

impl EnvironmentVariable for Environment {
    closed spec fn state(&self) -> Map<Seq<char>, Seq<char>> {
        pairs_map(self.vars@)
    }

    open spec fn available(&self) -> bool {
        true
    }

    closed spec fn wf(&self) -> bool {
        keys_unique(self.vars@)
    }

    open spec fn path_key() -> Seq<char> {
        PATH@
    }

    open spec fn path_delimiter() -> Seq<char> {
        PATH_DELIMITER@
    }

    fn path_variable() -> (r: (&'static str, &'static str)) {
        (PATH, PATH_DELIMITER)
    }

    fn list(&self) -> (r: Result<Vec<(String, String)>, EnvError>)
        ensures
            r matches Ok(l) && pairs_same(l@, self.listing()),
    {
        let mut out: Vec<(String, String)> = Vec::new();
        let mut i: usize = 0;
        while i < self.vars.len()
            invariant
                i <= self.vars.len(),
                pairs_same(out@, self.vars@.subrange(0, i as int)),
            decreases self.vars.len() - i,
        {
            out.push((self.vars[i].0.clone(), self.vars[i].1.clone()));
            i = i + 1;
        }
        proof {
            assert(self.vars@.subrange(0, i as int) =~= self.vars@);
            lemma_same_views(self.vars@, out@);
        }
        Ok(out)
    }

    fn get(&self, name: &String) -> (r: Result<String, EnvError>) {
        match self.find(name) {
            Some(i) => {
                proof {
                    lemma_value_at(self.vars@, name@, i as int);
                }
                Ok(self.vars[i].1.clone())
            },
            None => Err(EnvError::NotFound),
        }
    }

    fn set(&mut self, name: &String, value: &String) -> (r: Result<(), EnvError>)
        ensures
            final(self).shell_name() == old(self).shell_name(),
    {
        self.put(name, value);
        Ok(())
    }

    fn delete(&mut self, name: &String) -> (r: Result<(), EnvError>)
        ensures
            final(self).shell_name() == old(self).shell_name(),
    {
        match self.find(name) {
            Some(i) => {
                proof {
                    lemma_remove(self.vars@, i as int);
                }
                self.vars.remove(i);
                Ok(())
            },
            None => Err(EnvError::NotFound),
        }
    }
}

/// `a` and `b` list the same names and values in the same order.
pub open spec fn pairs_same(a: Seq<(String, String)>, b: Seq<(String, String)>) -> bool {
    a.len() == b.len() && forall|i: int|
        0 <= i < a.len() ==> a[i].0@ == b[i].0@ && a[i].1@ == b[i].1@
}

pub(crate) fn same_text(a: &str, b: &str) -> (r: bool)
    ensures
        r == (a@ == b@),
{
    let x = crate::list_codec::chars_of(a);
    let y = crate::list_codec::chars_of(b);
    if x.len() != y.len() {
        return false;
    }
    let mut i: usize = 0;
    while i < x.len()
        invariant
            x@ == a@,
            y@ == b@,
            x.len() == y.len(),
            i <= x.len(),
            forall|j: int| 0 <= j < i ==> x@[j] == y@[j],
        decreases x.len() - i,
    {
        if x[i] != y[i] {
            assert(x@[i as int] != y@[i as int]);
            return false;
        }
        i = i + 1;
    }
    assert(x@ =~= y@);
    true
}

fn is_ignored_name(k: &str) -> (r: bool)
    ensures
        r == is_ignored(k@),
{
    same_text(k, "_") || same_text(k, "PWD") || same_text(k, "SHLVL")
}

} // verus!
