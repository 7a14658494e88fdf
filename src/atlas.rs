//! The semantic atlas: an immutable, ID-sorted table that resolves semantic IDs to
//! their metadata. It borrows a table fixed when the program is built and never
//! changes at run time.
use vstd::prelude::*;

use crate::types::{SemanticID, UALError, UALMessage, UALResult, RESERVED_ID};

verus! {

/// Metadata of one semantic ID.
#[derive(Debug, Clone, Copy)]
pub struct AtlasEntry {
    pub id: SemanticID,
    pub name: &'static str,
}

/// Why a table cannot become an atlas.
#[derive(Debug, Clone, Copy, PartialEq, Eq, Structural)]
pub enum AtlasError {
    /// Two entries share an ID.
    DuplicateID,
    /// An entry uses the reserved ID zero.
    ReservedID,
    /// The entries are not in increasing order of ID.
    Unsorted,
}

/// No two entries of `t` share an ID.
pub open spec fn ids_unique(t: Seq<AtlasEntry>) -> bool {
    forall|i: int, j: int| 0 <= i < j < t.len() ==> t[i].id != t[j].id
}

/// Some entry of `t` uses the reserved ID.
pub open spec fn has_reserved(t: Seq<AtlasEntry>) -> bool {
    exists|i: int| 0 <= i < t.len() && t[i].id == 0
}

/// The IDs of `t` increase strictly from first to last.
pub open spec fn strictly_sorted(t: Seq<AtlasEntry>) -> bool {
    forall|i: int, j: int| 0 <= i < j < t.len() ==> t[i].id < t[j].id
}

/// A table that an atlas can hold: sorted by ID, without repeats, without the
/// reserved ID.
pub open spec fn valid_table(t: Seq<AtlasEntry>) -> bool {
    strictly_sorted(t) && !has_reserved(t)
}

/// The verdict on a table: duplicates are reported first, then the reserved ID, then
/// the order.
pub open spec fn table_check(t: Seq<AtlasEntry>) -> Result<(), AtlasError> {
    if !ids_unique(t) {
        Err(AtlasError::DuplicateID)
    } else if has_reserved(t) {
        Err(AtlasError::ReservedID)
    } else if !strictly_sorted(t) {
        Err(AtlasError::Unsorted)
    } else {
        Ok(())
    }
}

/// Some entry of `t` has ID `id`.
pub open spec fn is_known(t: Seq<AtlasEntry>, id: SemanticID) -> bool {
    exists|i: int| 0 <= i < t.len() && t[i].id == id
}

/// The entry of `t` with ID `id`, if there is one.
pub open spec fn entry_for(t: Seq<AtlasEntry>, id: SemanticID) -> Option<AtlasEntry> {
    if is_known(t, id) {
        Some(t[choose|i: int| 0 <= i < t.len() && t[i].id == id])
    } else {
        None
    }
}

/// An immutable, ID-sorted table of semantic metadata.
pub struct Atlas<'a> {
    entries: &'a [AtlasEntry],
}

impl<'a> View for Atlas<'a> {
    type V = Seq<AtlasEntry>;

    closed spec fn view(&self) -> Seq<AtlasEntry> {
        self.entries@
    }
}

impl<'a> Atlas<'a> {
    #[verifier::type_invariant]
    closed spec fn inv(&self) -> bool {
        valid_table(self.entries@)
    }

    /// Checks `entries` and, if it is a valid table, makes it an atlas.
    pub fn build(entries: &'a [AtlasEntry]) -> (r: Result<Atlas<'a>, AtlasError>)
        ensures
            match r {
                Ok(a) => table_check(entries@) == Ok::<(), AtlasError>(()) && a@ == entries@,
                Err(e) => table_check(entries@) == Err::<(), AtlasError>(e),
            },
    {
        let n = entries.len();
        let mut i: usize = 0;
        while i < n
            invariant
                n == entries@.len(),
                i <= n,
                forall|a: int, b: int| 0 <= a < b < n && a < i ==> entries@[a].id != entries@[b].id,
            decreases n - i,
        {
            let mut j: usize = i + 1;
            while j < n
                invariant
                    n == entries@.len(),
                    i < n,
                    i < j <= n,
                    forall|a: int, b: int|
                        0 <= a < b < n && a < i ==> entries@[a].id != entries@[b].id,
                    forall|b: int| i < b < j ==> entries@[i as int].id != entries@[b].id,
                decreases n - j,
            {
                if entries[i].id == entries[j].id {
                    return Err(AtlasError::DuplicateID);
                }
                j = j + 1;
            }
            i = i + 1;
        }
        assert(ids_unique(entries@));
        let mut k: usize = 0;
        while k < n
            invariant
                n == entries@.len(),
                k <= n,
                ids_unique(entries@),
                forall|a: int| 0 <= a < k ==> entries@[a].id != 0,
            decreases n - k,
        {
            if entries[k].id == RESERVED_ID {
                return Err(AtlasError::ReservedID);
            }
            k = k + 1;
        }
        assert(!has_reserved(entries@));
        let mut m: usize = 1;
        while m < n
            invariant
                n == entries@.len(),
                1 <= m,
                m <= n || n == 0,
                ids_unique(entries@),
                !has_reserved(entries@),
                forall|a: int, b: int| 0 <= a < b < n && b < m ==> entries@[a].id < entries@[b].id,
            decreases n - m,
        {
            if entries[m - 1].id >= entries[m].id {
                assert(entries@[m - 1].id != entries@[m as int].id);
                assert(!strictly_sorted(entries@));
                return Err(AtlasError::Unsorted);
            }
            m = m + 1;
        }
        Ok(Atlas { entries })
    }

    /// Number of entries.
    pub fn len(&self) -> (r: usize)
        ensures
            r == self@.len(),
    {
        self.entries.len()
    }

    /// The entry with ID `id`, or `None` where the atlas has none. A binary search:
    /// logarithmic in the size of the table.
    pub fn lookup(&self, id: SemanticID) -> (r: Option<&'a AtlasEntry>)
        ensures
            match r {
                Some(e) => entry_for(self@, id) == Some(*e),
                None => entry_for(self@, id) == Option::<AtlasEntry>::None,
            },
    {
        proof {
            use_type_invariant(self);
        }
        let t = self.entries;
        let mut lo: usize = 0;
        let mut hi: usize = t.len();
        while lo < hi
            invariant
                t@ == self@,
                valid_table(t@),
                lo <= hi <= t@.len(),
                forall|a: int| 0 <= a < lo ==> t@[a].id < id,
                forall|a: int| hi <= a < t@.len() ==> t@[a].id > id,
            decreases hi - lo,
        {
            let mid = lo + (hi - lo) / 2;
            let e = &t[mid];
            if e.id == id {
                proof {
                    lemma_entry_at(t@, mid as int);
                }
                return Some(e);
            } else if e.id < id {
                lo = mid + 1;
            } else {
                hi = mid;
            }
        }
        None
    }

    /// The entry of the message's action ID, or `InvalidID` where the atlas does not
    /// know it.
    pub fn validate(&self, msg: &UALMessage) -> (r: UALResult<&'a AtlasEntry>)
        ensures
            match r {
                Ok(e) => entry_for(self@, msg.action_id) == Some(*e),
                Err(err) => err == UALError::InvalidID && entry_for(self@, msg.action_id)
                    == Option::<AtlasEntry>::None,
            },
    {
        match self.lookup(msg.action_id) {
            Some(e) => Ok(e),
            None => Err(UALError::InvalidID),
        }
    }
}

/// In a table without repeated IDs, the entry found for the ID of `t[i]` is `t[i]`.
pub proof fn lemma_entry_at(t: Seq<AtlasEntry>, i: int)
    requires
        ids_unique(t),
        0 <= i < t.len(),
    ensures
        entry_for(t, t[i].id) == Some(t[i]),
{
    assert(is_known(t, t[i].id));
    let k = choose|k: int| 0 <= k < t.len() && t[k].id == t[i].id;
    assert(k == i);
}

/// For a table that `build` accepts, looking up the ID of any of its entries gives
/// that entry; looking up an ID that no entry has gives nothing; and whatever is
/// found carries the ID asked for and is an entry of the table.
pub proof fn lemma_lookup_correct(t: Seq<AtlasEntry>, id: SemanticID)
    requires
        table_check(t) == Ok::<(), AtlasError>(()),
    ensures
        forall|i: int| 0 <= i < t.len() ==> #[trigger] entry_for(t, t[i].id) == Some(t[i]),
        (forall|i: int| 0 <= i < t.len() ==> t[i].id != id) ==> entry_for(t, id)
            == Option::<AtlasEntry>::None,
        match entry_for(t, id) {
            Some(e) => e.id == id && t.contains(e),
            None => !is_known(t, id),
        },
{
    assert forall|i: int| 0 <= i < t.len() implies #[trigger] entry_for(t, t[i].id) == Some(
        t[i],
    ) by {
        lemma_entry_at(t, i);
    }
    if is_known(t, id) {
        let k = choose|k: int| 0 <= k < t.len() && t[k].id == id;
        assert(t.contains(t[k]));
    }
}

/// A table in which two entries share an ID is refused with `DuplicateID`.
pub proof fn lemma_duplicates_rejected(t: Seq<AtlasEntry>, i: int, j: int)
    requires
        0 <= i < j < t.len(),
        t[i].id == t[j].id,
    ensures
        table_check(t) == Err::<(), AtlasError>(AtlasError::DuplicateID),
{
}

} // verus!
