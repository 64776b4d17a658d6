//! The wire form of an event: a type name and a list of string attributes.
//!
//! An attribute ("tag") is a key/value pair of strings. Lookup is a linear
//! scan returning the first value under a key; duplicate keys are tolerated
//! and later occurrences are ignored.

use vstd::prelude::*;

use crate::errors::Error;
use crate::errors::ErrorView;
use crate::text::str_eq;

verus! {

/// One key/value attribute of an event.
#[derive(Debug, Clone, PartialEq, Eq)]
pub struct Tag {
    pub key: String,
    pub value: String,
}

/// The mathematical content of a [`Tag`].
pub ghost struct TagView {
    pub key: Seq<char>,
    pub value: Seq<char>,
}

impl View for Tag {
    type V = TagView;

    open spec fn view(&self) -> TagView {
        TagView { key: self.key@, value: self.value@ }
    }
}

impl Tag {
    /// An attribute with the given key and value.
    pub fn new(key: &str, value: &str) -> (r: Tag)
        ensures
            r@ == (TagView { key: key@, value: value@ }),
    {
        Tag { key: key.to_owned(), value: value.to_owned() }
    }
}

/// The views of a list of attributes.
pub open spec fn tags_view(entries: Seq<Tag>) -> Seq<TagView> {
    entries.map_values(|t: Tag| t@)
}

/// An event as it travels on the wire: its canonical type name and its
/// ordered attribute list.
#[derive(Debug, Clone, PartialEq, Eq)]
pub struct WireEvent {
    pub event_type: String,
    pub attributes: Vec<Tag>,
}

/// The value under `key` at its first occurrence, scanning left to right.
pub open spec fn find_spec(attrs: Seq<TagView>, key: Seq<char>) -> Option<Seq<char>>
    decreases attrs.len(),
{
    if attrs.len() == 0 {
        None
    } else if attrs[0].key == key {
        Some(attrs[0].value)
    } else {
        find_spec(attrs.drop_first(), key)
    }
}

/// The first value under `key`, or `MissingAttribute` naming `key`.
pub fn find_value(key: &str, entries: &Vec<Tag>) -> (r: Result<String, Error>)
    ensures
        r is Ok ==> find_spec(tags_view(entries@), key@) == Some(r->Ok_0@),
        r is Err ==> find_spec(tags_view(entries@), key@) is None && r->Err_0@
            == (ErrorView::MissingAttribute { key: key@ }),
{
    let n = entries.len();
    let ghost all = tags_view(entries@);
    let mut i: usize = 0;
    proof {
        assert(all.skip(0) =~= all);
    }
    while i < n
        invariant
            0 <= i <= n,
            n == entries@.len(),
            all == tags_view(entries@),
            find_spec(all, key@) == find_spec(all.skip(i as int), key@),
        decreases n - i,
    {
        proof {
            assert(all.skip(i as int)[0] == entries@[i as int]@);
            assert(all.skip(i as int).drop_first() =~= all.skip(i + 1));
        }
        if str_eq(entries[i].key.as_str(), key) {
            return Ok(entries[i].value.clone());
        }
        i += 1;
    }
    proof {
        assert(all.skip(n as int) =~= Seq::<TagView>::empty());
    }
    Err(Error::MissingAttribute { key: key.to_owned() })
}

/// A missing key means no entry carries it, and a found value means its
/// entry is in the list.
pub proof fn lemma_find_contains(attrs: Seq<TagView>, key: Seq<char>)
    ensures
        find_spec(attrs, key) is None <==> forall|i: int|
            0 <= i < attrs.len() ==> (#[trigger] attrs[i]).key != key,
        find_spec(attrs, key) is Some ==> attrs.contains(
            TagView { key, value: find_spec(attrs, key)->Some_0 },
        ),
    decreases attrs.len(),
{
    if attrs.len() > 0 {
        lemma_find_contains(attrs.drop_first(), key);
        if attrs[0].key != key {
            if find_spec(attrs, key) is Some {
                let t = TagView { key, value: find_spec(attrs, key)->Some_0 };
                assert(attrs.drop_first().contains(t));
                let j = choose|j: int|
                    0 <= j < attrs.drop_first().len() && attrs.drop_first()[j] == t;
                assert(attrs[j + 1] == t);
            }
            if find_spec(attrs, key) is None {
                assert forall|i: int|
                    0 <= i < attrs.len() implies (#[trigger] attrs[i]).key != key by {
                    if i > 0 {
                        assert(attrs.drop_first()[i - 1] == attrs[i]);
                    }
                }
            }
        } else {
            assert(attrs[0] == (TagView { key, value: find_spec(attrs, key)->Some_0 }));
        }
    }
}

/// When every entry under `key` is the same tag, lookup returns that tag's
/// value.
pub proof fn lemma_find_unambiguous(attrs: Seq<TagView>, key: Seq<char>, t: TagView)
    requires
        t.key == key,
        attrs.contains(t),
        forall|i: int| 0 <= i < attrs.len() && (#[trigger] attrs[i]).key == key ==> attrs[i] == t,
    ensures
        find_spec(attrs, key) == Some(t.value),
    decreases attrs.len(),
{
    if attrs[0].key != key {
        let j = choose|j: int| 0 <= j < attrs.len() && attrs[j] == t;
        assert(attrs.drop_first()[j - 1] == t);
        assert forall|i: int|
            0 <= i < attrs.drop_first().len() && (#[trigger] attrs.drop_first()[i]).key
                == key implies attrs.drop_first()[i] == t by {
            assert(attrs.drop_first()[i] == attrs[i + 1]);
        }
        lemma_find_unambiguous(attrs.drop_first(), key, t);
    }
}

} // verus!
