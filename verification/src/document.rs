//! The structured content of a TOML or JSON file, as far as recipes read it.
use vstd::prelude::*;

use crate::text::{has_substring, contains_chars, chars_of};

verus! {

/// A parsed TOML or JSON value: tables keep their entries in the order that the
/// parser's map yields them; numbers, booleans, dates and nulls are `Other`.
#[derive(Debug)]
pub enum Document {
    Table(Vec<(String, Document)>),
    Array(Vec<Document>),
    Str(String),
    Other,
}

/// The value under `key` among `entries` (the first entry with that key).
pub open spec fn entries_get(entries: Seq<(String, Document)>, key: Seq<char>) -> Option<Document>
    decreases entries.len(),
{
    if entries.len() == 0 {
        None
    } else if entries[0].0@ == key {
        Some(entries[0].1)
    } else {
        entries_get(entries.drop_first(), key)
    }
}

/// `d` mentions `target`: some table key anywhere in it equals `target`, or some
/// string anywhere in it contains `target`.
pub open spec fn mentions(d: Document, target: Seq<char>) -> bool
    decreases d,
{
    match d {
        Document::Table(entries) => entries_mention(entries@, target),
        Document::Array(items) => items_mention(items@, target),
        Document::Str(s) => has_substring(s@, target),
        Document::Other => false,
    }
}

/// Some entry's key equals `target` or some entry's value mentions it.
pub open spec fn entries_mention(entries: Seq<(String, Document)>, target: Seq<char>) -> bool
    decreases entries,
{
    if entries.len() == 0 {
        false
    } else {
        entries[0].0@ == target || mentions(entries[0].1, target) || entries_mention(
            entries.drop_first(),
            target,
        )
    }
}

/// Some item mentions `target`.
pub open spec fn items_mention(items: Seq<Document>, target: Seq<char>) -> bool
    decreases items,
{
    if items.len() == 0 {
        false
    } else {
        mentions(items[0], target) || items_mention(items.drop_first(), target)
    }
}

/// The string that `d` is, if it is one.
pub open spec fn as_string(d: Document) -> Option<Seq<char>> {
    match d {
        Document::Str(s) => Some(s@),
        _ => None,
    }
}

/// Depth-first search for `key` through nested tables: a table that has `key` answers
/// with that value (when it is a string); otherwise its values are searched in order.
pub open spec fn lookup(d: Document, key: Seq<char>) -> Option<Seq<char>>
    decreases d,
{
    match d {
        Document::Table(entries) => match entries_get(entries@, key) {
            Some(v) => as_string(v),
            None => entries_lookup(entries@, key),
        },
        _ => None,
    }
}

/// The first answer that the values of `entries`, searched in order, give for `key`.
pub open spec fn entries_lookup(entries: Seq<(String, Document)>, key: Seq<char>) -> Option<Seq<char>>
    decreases entries,
{
    if entries.len() == 0 {
        None
    } else {
        match lookup(entries[0].1, key) {
            Some(s) => Some(s),
            None => entries_lookup(entries.drop_first(), key),
        }
    }
}


impl Document {
    /// Whether this document mentions `target` (see [`mentions`]).
    pub fn mentions(&self, target: &String) -> (r: bool)
        ensures
            r == mentions(*self, target@),
        decreases self,
    {
        match self {
            Document::Table(entries) => {
                let mut i: usize = 0;
                assert(entries@.skip(0) =~= entries@);
                while i < entries.len()
                    invariant
                        0 <= i <= entries.len(),
                        *self == Document::Table(*entries),
                        entries_mention(entries@, target@) == entries_mention(
                            entries@.skip(i as int),
                            target@,
                        ),
                    decreases entries.len() - i,
                {
                    assert(entries@.skip(i as int).drop_first() =~= entries@.skip(i + 1));
                    if entries[i].0 == *target {
                        return true;
                    }
                    proof {
                        let e = entries@[i as int];
                        assert(decreases_to!(*self => (*self)->Table_0));
                        assert(decreases_to!(*entries => entries@));
                        assert(decreases_to!(entries@ => e));
                        assert(decreases_to!(e => e.1));
                    }
                    if entries[i].1.mentions(target) {
                        return true;
                    }
                    i = i + 1;
                }
                false
            },
            Document::Array(items) => {
                let mut i: usize = 0;
                assert(items@.skip(0) =~= items@);
                while i < items.len()
                    invariant
                        0 <= i <= items.len(),
                        *self == Document::Array(*items),
                        items_mention(items@, target@) == items_mention(
                            items@.skip(i as int),
                            target@,
                        ),
                    decreases items.len() - i,
                {
                    assert(items@.skip(i as int).drop_first() =~= items@.skip(i + 1));
                    proof {
                        assert(decreases_to!(*self => (*self)->Array_0));
                        assert(decreases_to!(*items => items@));
                        assert(decreases_to!(items@ => items@[i as int]));
                    }
                    if items[i].mentions(target) {
                        return true;
                    }
                    i = i + 1;
                }
                false
            },
            Document::Str(s) => {
                let sv = chars_of(s.as_str());
                let tv = chars_of(target.as_str());
                contains_chars(&sv, &tv)
            },
            Document::Other => false,
        }
    }

    /// The first string found for `key` (see [`lookup`]).
    pub fn lookup(&self, key: &String) -> (r: Option<String>)
        ensures
            r matches Some(s) ==> lookup(*self, key@) == Some(s@),
            r is None ==> lookup(*self, key@) is None,
        decreases self,
    {
        match self {
            Document::Table(entries) => {
                match entries_get_exec(entries, key) {
                    Some(v) => match v {
                        Document::Str(s) => Some(s.clone()),
                        _ => None,
                    },
                    None => {
                        let mut i: usize = 0;
                        assert(entries@.skip(0) =~= entries@);
                        while i < entries.len()
                            invariant
                                0 <= i <= entries.len(),
                                *self == Document::Table(*entries),
                                entries_get(entries@, key@) is None,
                                entries_lookup(entries@, key@) == entries_lookup(
                                    entries@.skip(i as int),
                                    key@,
                                ),
                            decreases entries.len() - i,
                        {
                            assert(entries@.skip(i as int).drop_first() =~= entries@.skip(i + 1));
                            proof {
                                let e = entries@[i as int];
                                assert(decreases_to!(*self => *entries));
                                assert(decreases_to!(*entries => entries@));
                                assert(decreases_to!(entries@ => e));
                                assert(decreases_to!(e => e.1));
                            }
                            let found = entries[i].1.lookup(key);
                            if found.is_some() {
                                return found;
                            }
                            i = i + 1;
                        }
                        None
                    },
                }
            },
            _ => None,
        }
    }
}

/// The value under `key` among `entries` (the first entry with that key).
pub fn entries_get_exec<'a>(entries: &'a Vec<(String, Document)>, key: &String) -> (r: Option<&'a Document>)
    ensures
        r matches Some(d) ==> entries_get(entries@, key@) == Some(*d),
        r is None ==> entries_get(entries@, key@) is None,
{
    let mut i: usize = 0;
    assert(entries@.skip(0) =~= entries@);
    while i < entries.len()
        invariant
            0 <= i <= entries.len(),
            entries_get(entries@, key@) == entries_get(entries@.skip(i as int), key@),
        decreases entries.len() - i,
    {
        assert(entries@.skip(i as int).drop_first() =~= entries@.skip(i + 1));
        if entries[i].0 == *key {
            return Some(&entries[i].1);
        }
        i = i + 1;
    }
    None
}

} // verus!
