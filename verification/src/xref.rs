//! The per-site cross-reference index: a mapping from a document's
//! site-relative source path to its name. `XREFLINK` placeholders are
//! resolved against it.

use vstd::prelude::*;

verus! {

use crate::document::DocumentName;
use crate::document::NameView;
use crate::strutil::clone_string;
use crate::strutil::str_eq;

/// One binding of the index.
#[derive(Debug)]
pub struct XrefEntry {
    pub rel_path: String,
    pub name: DocumentName,
}

/// The index itself. Later entries for the same path shadow earlier
/// ones, as repeated map insertion would.
#[derive(Debug)]
pub struct XrefIndex {
    pub entries: Vec<XrefEntry>,
}

/// The mapping an entry list denotes: each entry inserted in order.
pub open spec fn xref_map(entries: Seq<XrefEntry>) -> Map<Seq<char>, NameView>
    decreases entries.len(),
{
    if entries.len() == 0 {
        Map::empty()
    } else {
        xref_map(entries.drop_last()).insert(
            entries.last().rel_path@,
            entries.last().name@,
        )
    }
}

pub proof fn lemma_xref_map_prefix(entries: Seq<XrefEntry>, i: int, k: Seq<char>)
    requires
        0 <= i <= entries.len(),
        xref_map(entries.take(i)).contains_key(k),
    ensures
        xref_map(entries).contains_key(k),
    decreases entries.len() - i,
{
    if i < entries.len() {
        assert(entries.take(i + 1).drop_last() =~= entries.take(i));
        assert(entries.take(i + 1).last() == entries[i]);
        assert(xref_map(entries.take(i + 1)).contains_key(k));
        lemma_xref_map_prefix(entries, i + 1, k);
    } else {
        assert(entries.take(i) =~= entries);
    }
}

impl View for XrefIndex {
    type V = Map<Seq<char>, NameView>;

    open spec fn view(&self) -> Map<Seq<char>, NameView> {
        xref_map(self.entries@)
    }
}

impl XrefIndex {
    /// An empty index.
    pub fn new() -> (r: XrefIndex)
        ensures
            r@ == Map::<Seq<char>, NameView>::empty(),
    {
        XrefIndex { entries: Vec::new() }
    }

    /// Binds `rel_path` to `name`, shadowing any earlier binding.
    pub fn insert(&mut self, rel_path: String, name: DocumentName)
        ensures
            final(self)@ == old(self)@.insert(rel_path@, name@),
    {
        let ghost pre = self.entries@;
        self.entries.push(XrefEntry { rel_path, name });
        proof {
            assert(self.entries@.drop_last() =~= pre);
        }
    }

    /// The name bound to `key`, if any.
    pub fn lookup(&self, key: &str) -> (r: Option<&DocumentName>)
        ensures
            match r {
                Some(name) => self@.contains_key(key@) && self@[key@] == name@,
                None => !self@.contains_key(key@),
            },
    {
        let n = self.entries.len();
        let mut i: usize = n;
        proof {
            assert(self.entries@.take(n as int) =~= self.entries@);
        }
        while i > 0
            invariant
                i <= n,
                n == self.entries@.len(),
                !xref_map(self.entries@).contains_key(key@) || xref_map(
                    self.entries@.take(i as int),
                ).contains_key(key@),
                xref_map(self.entries@).contains_key(key@) ==> (xref_map(
                    self.entries@.take(i as int),
                ).contains_key(key@) ==> xref_map(self.entries@.take(i as int))[key@] == xref_map(
                    self.entries@,
                )[key@]),
            decreases i,
        {
            i -= 1;
            let e = &self.entries[i];
            proof {
                assert(self.entries@.take(i + 1).drop_last() =~= self.entries@.take(i as int));
                assert(self.entries@.take(i + 1).last() == self.entries@[i as int]);
            }
            if str_eq(e.rel_path.as_str(), key) {
                proof {
                    assert(xref_map(self.entries@.take(i + 1)).contains_key(key@));
                    assert(xref_map(self.entries@.take(i + 1))[key@] == e.name@);
                    lemma_xref_map_prefix(self.entries@, i + 1, key@);
                }
                return Some(&e.name);
            }
            proof {
                assert(xref_map(self.entries@.take(i + 1)).contains_key(key@) ==> xref_map(
                    self.entries@.take(i as int),
                ).contains_key(key@) && xref_map(self.entries@.take(i as int))[key@] == xref_map(
                    self.entries@.take(i + 1),
                )[key@]);
            }
        }
        proof {
            assert(self.entries@.take(0) =~= Seq::<XrefEntry>::empty());
            assert(!xref_map(self.entries@.take(0)).contains_key(key@));
        }
        None
    }
}

} // verus!
