//! A table of artists and their works, whose catalogues can be sorted.

use vstd::prelude::*;

verus! {

/// One artist together with the catalogue of their works.
pub struct TableEntry {
    pub artist: String,
    pub works: Vec<String>,
}

/// The table: one entry per artist.
pub type Table = Vec<TableEntry>;

/// Lexicographic order on character sequences, comparing code points.
pub open spec fn lex_le(a: Seq<char>, b: Seq<char>) -> bool
    decreases a.len(),
{
    if a.len() == 0 {
        true
    } else if b.len() == 0 {
        false
    } else if a[0] != b[0] {
        (a[0] as int) < (b[0] as int)
    } else {
        lex_le(a.drop_first(), b.drop_first())
    }
}

/// Every element is lexicographically at most every later one.
pub open spec fn sorted_strings(s: Seq<String>) -> bool {
    forall|i: int, j: int| 0 <= i <= j < s.len() ==> lex_le(s[i]@, s[j]@)
}

/// Relies on `slice::sort` (reached through `Vec`): sorts in place into
/// ascending order, keeping exactly the same elements. `str`'s order is
/// documented as lexicographic over the bytes, which for UTF-8 coincides
/// with lexicographic order over the code points the view holds.
#[verifier::external_body]
fn sort_strings(v: &mut Vec<String>)
    ensures
        final(v)@.to_multiset() == old(v)@.to_multiset(),
        sorted_strings(final(v)@),
{
    v.sort();
}

/// Sort every artist's catalogue of works in place. The artists and
/// their order are unchanged, each catalogue keeps exactly its works,
/// and each catalogue ends up in ascending lexicographic order.
pub fn sort_works(table: &mut Table)
    ensures
        final(table)@.len() == old(table)@.len(),
        forall|j: int|
            0 <= j < old(table)@.len() ==> {
                &&& final(table)@[j].artist == old(table)@[j].artist
                &&& final(table)@[j].works@.to_multiset() == old(
                    table,
                )@[j].works@.to_multiset()
                &&& sorted_strings(final(table)@[j].works@)
            },
{
    let n = table.len();
    let mut i: usize = 0;
    while i < n
        invariant
            n == table@.len(),
            n == old(table)@.len(),
            i <= n,
            forall|j: int| i <= j < n ==> table@[j] == old(table)@[j],
            forall|j: int|
                0 <= j < i ==> {
                    &&& table@[j].artist == old(table)@[j].artist
                    &&& table@[j].works@.to_multiset() == old(
                        table,
                    )@[j].works@.to_multiset()
                    &&& sorted_strings(table@[j].works@)
                },
        decreases n - i,
    {
        let TableEntry { artist, mut works } = table.remove(i);
        sort_strings(&mut works);
        table.insert(i, TableEntry { artist, works });
        i += 1;
    }
}

} // verus!
