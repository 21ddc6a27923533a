//! The alias table: which collection each alias names.
//!
//! An alias is a second name for a collection. The table is kept in
//! memory; every change that [`AliasPersistence`] makes is meant to be
//! written to its data file by the caller afterwards, and the table is read
//! back from that file on start-up.

use vstd::prelude::*;

use crate::errors::StorageError;
use crate::paths::{join_path, join_spec};

verus! {

/// Name of the file, inside the alias directory, that holds the table.
pub const ALIAS_MAPPING_CONFIG_FILE: &'static str = "data.json";

// ---------------------------------------------------------------------
// The mathematical model: a finite map from alias to collection name.
// ---------------------------------------------------------------------

/// The collection that `alias` names in `table`, if any.
pub open spec fn lookup(table: Map<Seq<char>, Seq<char>>, alias: Seq<char>) -> Option<Seq<char>> {
    if table.contains_key(alias) {
        Some(table[alias])
    } else {
        None
    }
}

/// `alias` names `collection` in `table`.
pub open spec fn targets(
    table: Map<Seq<char>, Seq<char>>,
    alias: Seq<char>,
    collection: Seq<char>,
) -> bool {
    table.contains_key(alias) && table[alias] == collection
}

/// `table` without the aliases that name `collection`.
pub open spec fn without_collection(
    table: Map<Seq<char>, Seq<char>>,
    collection: Seq<char>,
) -> Map<Seq<char>, Seq<char>> {
    Map::new(
        |alias: Seq<char>| table.contains_key(alias) && table[alias] != collection,
        |alias: Seq<char>| table[alias],
    )
}

/// The table built from `pairs` read left to right, a later pair for an
/// alias replacing an earlier one.
pub open spec fn pairs_to_table(pairs: Seq<(Seq<char>, Seq<char>)>) -> Map<Seq<char>, Seq<char>>
    decreases pairs.len(),
{
    if pairs.len() == 0 {
        Map::empty()
    } else {
        pairs_to_table(pairs.drop_last()).insert(pairs.last().0, pairs.last().1)
    }
}

/// The description of the error that renaming a missing alias reports.
pub open spec fn missing_alias_message(alias: Seq<char>) -> Seq<char> {
    "Alias "@ + alias + " does not exists!"@
}

// ---------------------------------------------------------------------
// The representation: a vector of (alias, collection) pairs whose aliases
// are pairwise distinct.
// ---------------------------------------------------------------------

spec fn has_alias(entries: Seq<(String, String)>, alias: Seq<char>) -> bool {
    exists|i: int| #![trigger entries[i]] 0 <= i < entries.len() && entries[i].0@ == alias
}

spec fn aliases_distinct(entries: Seq<(String, String)>) -> bool {
    forall|i: int, j: int|
        #![trigger entries[i], entries[j]]
        0 <= i < entries.len() && 0 <= j < entries.len() && i != j ==> entries[i].0@ != entries[j].0@
}

spec fn entries_table(entries: Seq<(String, String)>) -> Map<Seq<char>, Seq<char>> {
    Map::new(
        |alias: Seq<char>| has_alias(entries, alias),
        |alias: Seq<char>|
            entries[choose|i: int| #![trigger entries[i]] 0 <= i < entries.len() && entries[i].0@ == alias].1@,
    )
}

proof fn lemma_table_at(entries: Seq<(String, String)>, i: int)
    requires
        aliases_distinct(entries),
        0 <= i < entries.len(),
    ensures
        entries_table(entries).contains_key(entries[i].0@),
        entries_table(entries)[entries[i].0@] == entries[i].1@,
{
    let alias = entries[i].0@;
    assert(has_alias(entries, alias));
    let c = choose|j: int| #![trigger entries[j]] 0 <= j < entries.len() && entries[j].0@ == alias;
    assert(entries[c].0@ == alias);
    assert(c == i);
}

proof fn lemma_table_update(entries: Seq<(String, String)>, i: int, e: (String, String))
    requires
        aliases_distinct(entries),
        0 <= i < entries.len(),
        e.0@ == entries[i].0@,
    ensures
        aliases_distinct(entries.update(i, e)),
        entries_table(entries.update(i, e)) == entries_table(entries).insert(e.0@, e.1@),
{
    let t = entries.update(i, e);
    let before = entries_table(entries);
    let after = entries_table(t);
    assert forall|a: int, b: int|
        #![trigger t[a], t[b]]
        0 <= a < t.len() && 0 <= b < t.len() && a != b implies t[a].0@ != t[b].0@ by {
        assert(t[a].0@ == entries[a].0@);
        assert(t[b].0@ == entries[b].0@);
    }
    assert forall|alias: Seq<char>|
        after.contains_key(alias) <==> before.insert(e.0@, e.1@).contains_key(alias) by {
        if has_alias(t, alias) {
            let j = choose|j: int| #![trigger t[j]] 0 <= j < t.len() && t[j].0@ == alias;
            assert(entries[j].0@ == alias);
        }
        if has_alias(entries, alias) {
            let j = choose|j: int| #![trigger entries[j]] 0 <= j < entries.len() && entries[j].0@ == alias;
            assert(t[j].0@ == alias);
        }
        if alias == e.0@ {
            assert(t[i].0@ == alias);
        }
    }
    assert forall|alias: Seq<char>| #[trigger] after.contains_key(alias) implies after[alias]
        == before.insert(e.0@, e.1@)[alias] by {
        lemma_table_at(t, i);
        if alias != e.0@ {
            let j = choose|j: int| #![trigger t[j]] 0 <= j < t.len() && t[j].0@ == alias;
            assert(j != i);
            assert(t[j] == entries[j]);
            lemma_table_at(t, j);
            lemma_table_at(entries, j);
        }
    }
    assert(after =~= before.insert(e.0@, e.1@));
}

proof fn lemma_table_push(entries: Seq<(String, String)>, e: (String, String))
    requires
        aliases_distinct(entries),
        !has_alias(entries, e.0@),
    ensures
        aliases_distinct(entries.push(e)),
        entries_table(entries.push(e)) == entries_table(entries).insert(e.0@, e.1@),
{
    let t = entries.push(e);
    let n = entries.len() as int;
    let before = entries_table(entries);
    let after = entries_table(t);
    assert forall|a: int, b: int|
        #![trigger t[a], t[b]]
        0 <= a < t.len() && 0 <= b < t.len() && a != b implies t[a].0@ != t[b].0@ by {
        if a < n && b < n {
            assert(t[a] == entries[a] && t[b] == entries[b]);
        } else if a < n {
            assert(t[a] == entries[a]);
            assert(entries[a].0@ != e.0@);
        } else {
            assert(t[b] == entries[b]);
            assert(entries[b].0@ != e.0@);
        }
    }
    assert forall|alias: Seq<char>|
        after.contains_key(alias) <==> before.insert(e.0@, e.1@).contains_key(alias) by {
        if has_alias(t, alias) && alias != e.0@ {
            let j = choose|j: int| #![trigger t[j]] 0 <= j < t.len() && t[j].0@ == alias;
            assert(j < n);
            assert(entries[j].0@ == alias);
        }
        if has_alias(entries, alias) {
            let j = choose|j: int| #![trigger entries[j]] 0 <= j < entries.len() && entries[j].0@ == alias;
            assert(t[j].0@ == alias);
        }
        if alias == e.0@ {
            assert(t[n].0@ == alias);
        }
    }
    assert forall|alias: Seq<char>| #[trigger] after.contains_key(alias) implies after[alias]
        == before.insert(e.0@, e.1@)[alias] by {
        assert(t[n] == e);
        lemma_table_at(t, n);
        if alias != e.0@ {
            let j = choose|j: int| #![trigger t[j]] 0 <= j < t.len() && t[j].0@ == alias;
            assert(j != n);
            assert(t[j] == entries[j]);
            lemma_table_at(t, j);
            lemma_table_at(entries, j);
        }
    }
    assert(after =~= before.insert(e.0@, e.1@));
}

proof fn lemma_table_remove(entries: Seq<(String, String)>, i: int)
    requires
        aliases_distinct(entries),
        0 <= i < entries.len(),
    ensures
        aliases_distinct(entries.remove(i)),
        entries_table(entries.remove(i)) == entries_table(entries).remove(entries[i].0@),
{
    let t = entries.remove(i);
    let gone = entries[i].0@;
    let before = entries_table(entries);
    let after = entries_table(t);
    assert forall|a: int| 0 <= a < t.len() implies #[trigger] t[a] == (if a < i {
        entries[a]
    } else {
        entries[a + 1]
    }) by {}
    assert forall|a: int, b: int|
        #![trigger t[a], t[b]]
        0 <= a < t.len() && 0 <= b < t.len() && a != b implies t[a].0@ != t[b].0@ by {
        let a2 = if a < i { a } else { a + 1 };
        let b2 = if b < i { b } else { b + 1 };
        assert(t[a] == entries[a2]);
        assert(t[b] == entries[b2]);
    }
    assert forall|alias: Seq<char>|
        after.contains_key(alias) <==> before.remove(gone).contains_key(alias) by {
        if has_alias(t, alias) {
            let j = choose|j: int| #![trigger t[j]] 0 <= j < t.len() && t[j].0@ == alias;
            let j2 = if j < i { j } else { j + 1 };
            assert(t[j] == entries[j2]);
            assert(entries[j2].0@ == alias);
            assert(j2 != i);
            assert(entries[i].0@ != entries[j2].0@);
        }
        if has_alias(entries, alias) && alias != gone {
            let j = choose|j: int| #![trigger entries[j]] 0 <= j < entries.len() && entries[j].0@ == alias;
            assert(j != i);
            let j2 = if j < i { j } else { j - 1 };
            assert(t[j2] == entries[j]);
            assert(t[j2].0@ == alias);
        }
    }
    assert forall|alias: Seq<char>| #[trigger] after.contains_key(alias) implies after[alias]
        == before.remove(gone)[alias] by {
        let j = choose|j: int| #![trigger t[j]] 0 <= j < t.len() && t[j].0@ == alias;
        let j2 = if j < i { j } else { j + 1 };
        assert(t[j] == entries[j2]);
        lemma_table_at(t, j);
        lemma_table_at(entries, j2);
    }
    assert(after =~= before.remove(gone));
}

/// The pairs of `entries`, each taken by its text.
spec fn pair_views(entries: Seq<(String, String)>) -> Seq<(Seq<char>, Seq<char>)> {
    Seq::new(entries.len(), |i: int| (entries[i].0@, entries[i].1@))
}

proof fn lemma_pairs_table(entries: Seq<(String, String)>)
    requires
        aliases_distinct(entries),
    ensures
        pairs_to_table(pair_views(entries)) == entries_table(entries),
    decreases entries.len(),
{
    if entries.len() == 0 {
        assert(entries_table(entries) =~= Map::<Seq<char>, Seq<char>>::empty());
    } else {
        let n = entries.len() - 1;
        let t = entries.drop_last();
        let e = entries.last();
        assert forall|a: int, b: int|
            #![trigger t[a], t[b]]
            0 <= a < t.len() && 0 <= b < t.len() && a != b implies t[a].0@ != t[b].0@ by {
            assert(t[a] == entries[a] && t[b] == entries[b]);
        }
        lemma_pairs_table(t);
        assert(pair_views(entries).drop_last() =~= pair_views(t));
        if has_alias(t, e.0@) {
            let j = choose|j: int| #![trigger t[j]] 0 <= j < t.len() && t[j].0@ == e.0@;
            assert(t[j] == entries[j]);
            assert(entries[n] == e);
            assert(false);
        }
        lemma_table_push(t, e);
        assert(t.push(e) =~= entries);
    }
}

// ---------------------------------------------------------------------
// AliasMapping
// ---------------------------------------------------------------------

/// The alias table: each alias names one collection. Aliases are unique;
/// several aliases may name the same collection.
#[derive(Debug)]
pub struct AliasMapping {
    entries: Vec<(String, String)>,
}

impl AliasMapping {
    #[verifier::type_invariant]
    spec fn aliases_are_distinct(self) -> bool {
        aliases_distinct(self.entries@)
    }
}

impl View for AliasMapping {
    type V = Map<Seq<char>, Seq<char>>;

    closed spec fn view(&self) -> Map<Seq<char>, Seq<char>> {
        entries_table(self.entries@)
    }
}

impl AliasMapping {
    /// The empty table.
    fn empty() -> (mapping: AliasMapping)
        ensures
            mapping@ == Map::<Seq<char>, Seq<char>>::empty(),
    {
        let mapping = AliasMapping { entries: Vec::new() };
        assert(mapping@ =~= Map::<Seq<char>, Seq<char>>::empty());
        mapping
    }

    /// Position of `alias` in the entries, if it is there.
    fn position(&self, alias: &String) -> (pos: Option<usize>)
        ensures
            match pos {
                Some(i) => i < self.entries@.len() && self.entries@[i as int].0@ == alias@,
                None => !has_alias(self.entries@, alias@),
            },
    {
        let mut i: usize = 0;
        while i < self.entries.len()
            invariant
                i <= self.entries@.len(),
                forall|j: int| 0 <= j < i ==> #[trigger] self.entries@[j].0@ != alias@,
            decreases self.entries@.len() - i,
        {
            if self.entries[i].0.eq(alias) {
                return Some(i);
            }
            i = i + 1;
        }
        None
    }

    /// The collection that `alias` names, if any.
    fn lookup_alias(&self, alias: &String) -> (target: Option<String>)
        ensures
            target.deep_view() == lookup(self@, alias@),
    {
        proof {
            use_type_invariant(self);
        }
        match self.position(alias) {
            Some(i) => {
                proof {
                    lemma_table_at(self.entries@, i as int);
                }
                Some(self.entries[i].1.clone())
            },
            None => None,
        }
    }

    /// Makes `alias` name `collection`, replacing what it named before.
    fn insert_alias(&mut self, alias: String, collection: String)
        ensures
            final(self)@ == old(self)@.insert(alias@, collection@),
    {
        proof {
            use_type_invariant(&*self);
        }
        let pos = self.position(&alias);
        let mut entries: Vec<(String, String)> = Vec::new();
        std::mem::swap(&mut entries, &mut self.entries);
        let ghost before = entries@;
        let ghost entry = (alias, collection);
        match pos {
            Some(i) => {
                entries[i] = (alias, collection);
                proof {
                    lemma_table_update(before, i as int, entry);
                }
            },
            None => {
                entries.push((alias, collection));
                proof {
                    lemma_table_push(before, entry);
                }
            },
        }
        self.entries = entries;
    }

    /// Drops `alias` from the table and returns what it named.
    fn remove_alias(&mut self, alias: &String) -> (removed: Option<String>)
        ensures
            removed.deep_view() == lookup(old(self)@, alias@),
            final(self)@ == old(self)@.remove(alias@),
    {
        proof {
            use_type_invariant(&*self);
        }
        match self.position(alias) {
            Some(i) => {
                let mut entries: Vec<(String, String)> = Vec::new();
                std::mem::swap(&mut entries, &mut self.entries);
                let ghost before = entries@;
                proof {
                    lemma_table_at(before, i as int);
                    lemma_table_remove(before, i as int);
                }
                let (_, collection) = entries.remove(i);
                self.entries = entries;
                Some(collection)
            },
            None => {
                assert(self@.remove(alias@) =~= self@);
                None
            },
        }
    }
    /// Drops every alias that names `collection`; tells whether one was
    /// dropped.
    fn remove_aliases_of(&mut self, collection: &String) -> (dropped: bool)
        ensures
            final(self)@ == without_collection(old(self)@, collection@),
            dropped == exists|alias: Seq<char>| targets(old(self)@, alias, collection@),
    {
        proof {
            use_type_invariant(&*self);
        }
        let ghost s = self.entries@;
        let ghost c = collection@;
        let ghost mut origin: Seq<int> = Seq::empty();
        let mut kept: Vec<(String, String)> = Vec::new();
        let mut dropped = false;
        let mut i: usize = 0;
        while i < self.entries.len()
            invariant
                self.entries@ == s,
                aliases_distinct(s),
                c == collection@,
                i <= s.len(),
                aliases_distinct(kept@),
                origin.len() == kept@.len(),
                forall|p: int|
                    #![trigger origin[p]]
                    0 <= p < origin.len() ==> 0 <= origin[p] < i && kept@[p] == s[origin[p]]
                        && s[origin[p]].1@ != c,
                forall|j: int|
                    #![trigger s[j]]
                    0 <= j < i && s[j].1@ != c ==> has_alias(kept@, s[j].0@),
                dropped == exists|j: int| #![trigger s[j]] 0 <= j < i && s[j].1@ == c,
            decreases s.len() - i,
        {
            let entry = &self.entries[i];
            if entry.1.eq(collection) {
                dropped = true;
                assert(s[i as int].1@ == c);
            } else {
                let copy = (entry.0.clone(), entry.1.clone());
                proof {
                    assert(copy == s[i as int]);
                    assert forall|p: int| 0 <= p < kept@.len() implies #[trigger] kept@[p].0@
                        != copy.0@ by {
                        assert(kept@[p] == s[origin[p]]);
                        assert(origin[p] != i);
                    }
                    lemma_table_push(kept@, copy);
                }
                let ghost before = kept@;
                kept.push(copy);
                proof {
                    origin = origin.push(i as int);
                    assert forall|p: int| #![trigger origin[p]] 0 <= p < origin.len() implies 0
                        <= origin[p] < i + 1 && kept@[p] == s[origin[p]] && s[origin[p]].1@
                        != c by {
                        if p < before.len() {
                            assert(kept@[p] == before[p]);
                        }
                    }
                    assert forall|j: int|
                        #![trigger s[j]]
                        0 <= j < i + 1 && s[j].1@ != c implies has_alias(kept@, s[j].0@) by {
                        if j < i {
                            let q = choose|q: int|
                                #![trigger before[q]]
                                0 <= q < before.len() && before[q].0@ == s[j].0@;
                            assert(kept@[q] == before[q]);
                        } else {
                            assert(kept@[before.len() as int] == s[j]);
                        }
                    }
                }
            }
            i = i + 1;
        }
        proof {
            let old_table = entries_table(s);
            let new_table = entries_table(kept@);
            let expected = without_collection(old_table, c);
            assert forall|alias: Seq<char>|
                new_table.contains_key(alias) <==> expected.contains_key(alias) by {
                if has_alias(kept@, alias) {
                    let p = choose|p: int|
                        #![trigger kept@[p]]
                        0 <= p < kept@.len() && kept@[p].0@ == alias;
                    assert(kept@[p] == s[origin[p]]);
                    lemma_table_at(s, origin[p]);
                }
                if expected.contains_key(alias) {
                    let j = choose|j: int| #![trigger s[j]] 0 <= j < s.len() && s[j].0@ == alias;
                    lemma_table_at(s, j);
                }
            }
            assert forall|alias: Seq<char>| #[trigger] new_table.contains_key(alias) implies new_table[alias]
                == expected[alias] by {
                let p = choose|p: int|
                    #![trigger kept@[p]]
                    0 <= p < kept@.len() && kept@[p].0@ == alias;
                assert(kept@[p] == s[origin[p]]);
                lemma_table_at(s, origin[p]);
                lemma_table_at(kept@, p);
            }
            assert(new_table =~= expected);
            if dropped {
                let j = choose|j: int| #![trigger s[j]] 0 <= j < i && s[j].1@ == c;
                lemma_table_at(s, j);
                assert(targets(old_table, s[j].0@, c));
            }
            if exists|alias: Seq<char>| targets(old_table, alias, c) {
                let alias = choose|alias: Seq<char>| targets(old_table, alias, c);
                let j = choose|j: int| #![trigger s[j]] 0 <= j < s.len() && s[j].0@ == alias;
                lemma_table_at(s, j);
            }
        }
        self.entries = kept;
        dropped
    }
    /// The aliases that name `collection`, each once, in no particular order.
    fn aliases_of(&self, collection: &String) -> (aliases: Vec<String>)
        ensures
            aliases.deep_view().no_duplicates(),
            forall|alias: Seq<char>|
                aliases.deep_view().contains(alias) <==> targets(self@, alias, collection@),
    {
        proof {
            use_type_invariant(self);
        }
        let ghost s = self.entries@;
        let ghost c = collection@;
        let ghost mut origin: Seq<int> = Seq::empty();
        let mut aliases: Vec<String> = Vec::new();
        let mut i: usize = 0;
        while i < self.entries.len()
            invariant
                self.entries@ == s,
                aliases_distinct(s),
                c == collection@,
                i <= s.len(),
                origin.len() == aliases@.len(),
                forall|p: int|
                    #![trigger origin[p]]
                    0 <= p < origin.len() ==> 0 <= origin[p] < i && aliases@[p]@ == s[origin[p]].0@
                        && s[origin[p]].1@ == c,
                forall|p: int, q: int|
                    #![trigger origin[p], origin[q]]
                    0 <= p < q < origin.len() ==> origin[p] < origin[q],
                forall|j: int|
                    #![trigger s[j]]
                    0 <= j < i && s[j].1@ == c ==> exists|p: int|
                        #![trigger aliases@[p]]
                        0 <= p < aliases@.len() && aliases@[p]@ == s[j].0@,
            decreases s.len() - i,
        {
            let entry = &self.entries[i];
            if entry.1.eq(collection) {
                let ghost before = aliases@;
                aliases.push(entry.0.clone());
                proof {
                    origin = origin.push(i as int);
                    assert forall|p: int| #![trigger origin[p]] 0 <= p < origin.len() implies 0
                        <= origin[p] < i + 1 && aliases@[p]@ == s[origin[p]].0@
                        && s[origin[p]].1@ == c by {
                        if p < before.len() {
                            assert(aliases@[p] == before[p]);
                        }
                    }
                    assert forall|j: int|
                        #![trigger s[j]]
                        0 <= j < i + 1 && s[j].1@ == c implies exists|p: int|
                        #![trigger aliases@[p]]
                        0 <= p < aliases@.len() && aliases@[p]@ == s[j].0@ by {
                        if j < i {
                            let p = choose|p: int|
                                #![trigger before[p]]
                                0 <= p < before.len() && before[p]@ == s[j].0@;
                            assert(aliases@[p] == before[p]);
                        } else {
                            assert(aliases@[before.len() as int]@ == s[j].0@);
                        }
                    }
                }
            }
            i = i + 1;
        }
        proof {
            let dv = aliases.deep_view();
            let table = entries_table(s);
            assert forall|p: int, q: int| 0 <= p < dv.len() && 0 <= q < dv.len() && p != q implies dv[p]
                != dv[q] by {
                assert(dv[p] == aliases@[p]@);
                assert(dv[q] == aliases@[q]@);
                if p < q {
                    assert(origin[p] < origin[q]);
                } else {
                    assert(origin[q] < origin[p]);
                }
            }
            assert forall|alias: Seq<char>| dv.contains(alias) <==> targets(table, alias, c) by {
                if dv.contains(alias) {
                    let p = choose|p: int| 0 <= p < dv.len() && dv[p] == alias;
                    assert(dv[p] == aliases@[p]@);
                    lemma_table_at(s, origin[p]);
                }
                if targets(table, alias, c) {
                    let j = choose|j: int| #![trigger s[j]] 0 <= j < s.len() && s[j].0@ == alias;
                    lemma_table_at(s, j);
                    let p = choose|p: int|
                        #![trigger aliases@[p]]
                        0 <= p < aliases@.len() && aliases@[p]@ == s[j].0@;
                    assert(dv[p] == alias);
                }
            }
        }
        aliases
    }

    /// The table as a list of `(alias, collection)` pairs, each alias once,
    /// in no particular order.
    pub fn to_pairs(&self) -> (pairs: Vec<(String, String)>)
        ensures
            pairs_to_table(pairs.deep_view()) == self@,
            forall|i: int, j: int|
                0 <= i < pairs.deep_view().len() && 0 <= j < pairs.deep_view().len() && i != j
                    ==> pairs.deep_view()[i].0 != pairs.deep_view()[j].0,
    {
        proof {
            use_type_invariant(self);
        }
        let mut pairs: Vec<(String, String)> = Vec::new();
        let mut i: usize = 0;
        while i < self.entries.len()
            invariant
                i <= self.entries@.len(),
                pairs@.len() == i,
                forall|p: int| 0 <= p < i ==> #[trigger] pairs@[p] == self.entries@[p],
            decreases self.entries@.len() - i,
        {
            let entry = &self.entries[i];
            pairs.push((entry.0.clone(), entry.1.clone()));
            i = i + 1;
        }
        proof {
            assert(pairs@ =~= self.entries@);
            assert(pairs.deep_view() =~= pair_views(pairs@));
            lemma_pairs_table(pairs@);
        }
        pairs
    }

    /// The table that `pairs` describe, read left to right: where an alias
    /// occurs more than once, its last pair wins.
    pub fn from_pairs(pairs: Vec<(String, String)>) -> (mapping: AliasMapping)
        ensures
            mapping@ == pairs_to_table(pairs.deep_view()),
    {
        let ghost views = pair_views(pairs@);
        let mut mapping = AliasMapping::empty();
        let mut i: usize = 0;
        proof {
            assert(views.take(0) =~= Seq::<(Seq<char>, Seq<char>)>::empty());
        }
        while i < pairs.len()
            invariant
                i <= pairs@.len(),
                views == pair_views(pairs@),
                mapping@ == pairs_to_table(views.take(i as int)),
            decreases pairs@.len() - i,
        {
            let alias = pairs[i].0.clone();
            let collection = pairs[i].1.clone();
            mapping.insert_alias(alias, collection);
            proof {
                assert(views.take(i + 1).drop_last() =~= views.take(i as int));
            }
            i = i + 1;
        }
        proof {
            assert(views.take(i as int) =~= views);
            assert(pairs.deep_view() =~= views);
        }
        mapping
    }
}

impl Default for AliasMapping {
    /// The empty table.
    fn default() -> (mapping: AliasMapping)
        ensures
            mapping@ == Map::<Seq<char>, Seq<char>>::empty(),
    {
        AliasMapping::empty()
    }
}

impl Clone for AliasMapping {
    /// A table with the same aliases, naming the same collections.
    fn clone(&self) -> (copy: AliasMapping)
        ensures
            copy@ == self@,
    {
        AliasMapping::from_pairs(self.to_pairs())
    }
}

impl AliasMapping {
    /// Whether every alias of `self` names the same collection in `other`.
    fn included_in(&self, other: &AliasMapping) -> (included: bool)
        ensures
            included == forall|alias: Seq<char>|
                #[trigger] self@.contains_key(alias) ==> lookup(other@, alias) == Some(self@[alias]),
    {
        proof {
            use_type_invariant(self);
        }
        let ghost s = self.entries@;
        let mut i: usize = 0;
        while i < self.entries.len()
            invariant
                self.entries@ == s,
                aliases_distinct(s),
                i <= s.len(),
                forall|j: int|
                    #![trigger s[j]]
                    0 <= j < i ==> lookup(other@, s[j].0@) == Some(s[j].1@),
            decreases s.len() - i,
        {
            let entry = &self.entries[i];
            let found = other.lookup_alias(&entry.0);
            let same = match &found {
                Some(collection) => collection.eq(&entry.1),
                None => false,
            };
            if !same {
                proof {
                    lemma_table_at(s, i as int);
                    assert(self@.contains_key(s[i as int].0@));
                }
                return false;
            }
            i = i + 1;
        }
        proof {
            assert forall|alias: Seq<char>| #[trigger] self@.contains_key(alias) implies lookup(
                other@,
                alias,
            ) == Some(self@[alias]) by {
                let j = choose|j: int| #![trigger s[j]] 0 <= j < s.len() && s[j].0@ == alias;
                lemma_table_at(s, j);
            }
        }
        true
    }
}

impl PartialEq for AliasMapping {
    /// Two tables are equal when they have the same aliases, each naming
    /// the same collection.
    fn eq(&self, other: &AliasMapping) -> (same: bool) {
        let same = self.included_in(other) && other.included_in(self);
        proof {
            if same {
                assert(self@ =~= other@);
            }
        }
        same
    }
}

impl vstd::std_specs::cmp::PartialEqSpecImpl for AliasMapping {
    open spec fn obeys_eq_spec() -> bool {
        true
    }

    open spec fn eq_spec(&self, other: &AliasMapping) -> bool {
        self@ == other@
    }
}

impl Eq for AliasMapping {

}

// ---------------------------------------------------------------------
// AliasPersistence
// ---------------------------------------------------------------------

/// The alias table together with the path of the file it is saved to.
///
/// Reads are served from memory. Each change is meant to be written to
/// [`AliasPersistence::data_path`] by the caller right after it is made:
/// [`insert`](AliasPersistence::insert) and
/// [`apply_state`](AliasPersistence::apply_state) always change what is to
/// be saved, [`remove`](AliasPersistence::remove) when it returns `Some`,
/// [`remove_collection`](AliasPersistence::remove_collection) when it
/// returns `true`, and [`rename_alias`](AliasPersistence::rename_alias)
/// when it returns `Ok`.
#[derive(Debug)]
pub struct AliasPersistence {
    data_path: String,
    alias_mapping: AliasMapping,
}

impl View for AliasPersistence {
    type V = Map<Seq<char>, Seq<char>>;

    closed spec fn view(&self) -> Map<Seq<char>, Seq<char>> {
        self.alias_mapping@
    }
}

impl AliasPersistence {
    /// The path of the file that the table is saved to.
    pub closed spec fn data_file(&self) -> Seq<char> {
        self.data_path@
    }

    /// The path of the table's file inside the directory `path`.
    pub fn get_config_path(path: &str) -> (config_path: String)
        ensures
            config_path@ == join_spec(path@, ALIAS_MAPPING_CONFIG_FILE@),
    {
        join_path(path, ALIAS_MAPPING_CONFIG_FILE)
    }

    /// The table `alias_mapping`, to be saved to `data_path`.
    pub fn new(data_path: String, alias_mapping: AliasMapping) -> (persistence: AliasPersistence)
        ensures
            persistence@ == alias_mapping@,
            persistence.data_file() == data_path@,
    {
        AliasPersistence { data_path, alias_mapping }
    }

    /// The path of the file that the table is saved to.
    pub fn data_path(&self) -> (path: &String)
        ensures
            path@ == self.data_file(),
    {
        &self.data_path
    }

    /// The collection that `alias` names, if any.
    pub fn get(&self, alias: &str) -> (collection_name: Option<String>)
        ensures
            collection_name.deep_view() == lookup(self@, alias@),
    {
        let key = alias.to_owned();
        self.alias_mapping.lookup_alias(&key)
    }

    /// Makes `alias` name `collection_name`, replacing what it named before.
    pub fn insert(&mut self, alias: String, collection_name: String)
        ensures
            final(self)@ == old(self)@.insert(alias@, collection_name@),
            final(self).data_file() == old(self).data_file(),
    {
        self.alias_mapping.insert_alias(alias, collection_name);
    }

    /// Drops `alias` and returns the collection it named, if it was there.
    pub fn remove(&mut self, alias: &str) -> (removed: Option<String>)
        ensures
            removed.deep_view() == lookup(old(self)@, alias@),
            final(self)@ == old(self)@.remove(alias@),
            final(self).data_file() == old(self).data_file(),
    {
        let key = alias.to_owned();
        self.alias_mapping.remove_alias(&key)
    }

    /// Removes all aliases for the given collection; tells whether there was
    /// one.
    pub fn remove_collection(&mut self, collection_name: &str) -> (changed: bool)
        ensures
            final(self)@ == without_collection(old(self)@, collection_name@),
            changed == exists|alias: Seq<char>| targets(old(self)@, alias, collection_name@),
            final(self).data_file() == old(self).data_file(),
    {
        let name = collection_name.to_owned();
        let ghost before = self@;
        let changed = self.alias_mapping.remove_aliases_of(&name);
        proof {
            if changed {
                let alias = choose|alias: Seq<char>| targets(before, alias, name@);
                assert(targets(before, alias, collection_name@));
            }
        }
        changed
    }

    /// Gives the collection that `old_alias_name` names the alias
    /// `new_alias_name` in its place. Fails with `NotFound`, changing
    /// nothing, when `old_alias_name` is not an alias.
    pub fn rename_alias(&mut self, old_alias_name: &str, new_alias_name: String) -> (result: Result<
        (),
        StorageError,
    >)
        ensures
            match result {
                Ok(()) => {
                    &&& old(self)@.contains_key(old_alias_name@)
                    &&& final(self)@ == old(self)@.remove(old_alias_name@).insert(
                        new_alias_name@,
                        old(self)@[old_alias_name@],
                    )
                },
                Err(err) => {
                    &&& !old(self)@.contains_key(old_alias_name@)
                    &&& final(self)@ == old(self)@
                    &&& err matches StorageError::NotFound { description }
                    &&& description@ == missing_alias_message(old_alias_name@)
                },
            },
            final(self).data_file() == old(self).data_file(),
    {
        match self.get(old_alias_name) {
            None => {
                let mut description = "Alias ".to_owned();
                description = description.concat(old_alias_name);
                description = description.concat(" does not exists!");
                Err(StorageError::not_found(description))
            },
            Some(collection_name) => {
                let key = old_alias_name.to_owned();
                self.alias_mapping.remove_alias(&key);
                self.alias_mapping.insert_alias(new_alias_name, collection_name);
                Ok(())
            },
        }
    }

    /// The aliases of the collection `collection_name`, each once, in no
    /// particular order.
    pub fn collection_aliases(&self, collection_name: &str) -> (aliases: Vec<String>)
        ensures
            aliases.deep_view().no_duplicates(),
            forall|alias: Seq<char>|
                aliases.deep_view().contains(alias) <==> targets(self@, alias, collection_name@),
    {
        let name = collection_name.to_owned();
        self.alias_mapping.aliases_of(&name)
    }

    /// The whole table.
    pub fn state(&self) -> (mapping: &AliasMapping)
        ensures
            mapping@ == self@,
    {
        &self.alias_mapping
    }

    /// Replaces the whole table with `alias_mapping`.
    pub fn apply_state(&mut self, alias_mapping: AliasMapping)
        ensures
            final(self)@ == alias_mapping@,
            final(self).data_file() == old(self).data_file(),
    {
        self.alias_mapping = alias_mapping;
    }

    /// Whether `alias` is an alias.
    pub fn check_alias_exists(&self, alias: &str) -> (exists: bool)
        ensures
            exists == self@.contains_key(alias@),
    {
        let key = alias.to_owned();
        self.alias_mapping.lookup_alias(&key).is_some()
    }
}

} // verus!
