use vstd::prelude::*;
use vstd::multiset::Multiset;
use vstd::relations::sorted_by;
use crate::AppError;
use crate::text::{chars_le, lex_le, lemma_lex_le_total, lemma_lex_le_trans, lower_of, lowercase,
    str_chars};

verus! {

broadcast use vstd::seq_lib::group_to_multiset_ensures;

/// One entry of a directory listing.
pub struct DirectoryEntryInfo {
    pub name: String,
    pub is_directory: bool,
    pub is_file: bool,
    pub full_path: Option<String>,
}

impl DirectoryEntryInfo {
    /// Creates a new directory entry information structure.
    pub fn new(name: String, is_directory: bool, is_file: bool, full_path: Option<String>) -> (r:
        Self)
        ensures
            r.name@ == name@,
            r.is_directory == is_directory,
            r.is_file == is_file,
            r.full_path == full_path,
    {
        Self { name, is_directory, is_file, full_path }
    }

    /// A copy of the entry.
    pub fn duplicate(&self) -> (r: Self)
        ensures
            r == *self,
    {
        let full_path = match &self.full_path {
            Some(p) => Some(p.clone()),
            None => None,
        };
        DirectoryEntryInfo {
            name: self.name.clone(),
            is_directory: self.is_directory,
            is_file: self.is_file,
            full_path,
        }
    }
}

/// The listing order: directories before files, and within each group names
/// compared case-insensitively.
pub open spec fn entry_le(a: DirectoryEntryInfo, b: DirectoryEntryInfo) -> bool {
    if a.is_directory && !b.is_directory {
        true
    } else if !a.is_directory && b.is_directory {
        false
    } else {
        lex_le(lower_of(a.name@), lower_of(b.name@))
    }
}

/// Whether a listing stands in order.
pub open spec fn entries_ordered(s: Seq<DirectoryEntryInfo>) -> bool {
    sorted_by(s, |x: DirectoryEntryInfo, y: DirectoryEntryInfo| entry_le(x, y))
}

pub proof fn lemma_entry_le_total(a: DirectoryEntryInfo, b: DirectoryEntryInfo)
    ensures
        entry_le(a, b) || entry_le(b, a),
{
    lemma_lex_le_total(lower_of(a.name@), lower_of(b.name@));
}

pub proof fn lemma_entry_le_trans(
    a: DirectoryEntryInfo,
    b: DirectoryEntryInfo,
    c: DirectoryEntryInfo,
)
    requires
        entry_le(a, b),
        entry_le(b, c),
    ensures
        entry_le(a, c),
{
    if a.is_directory == b.is_directory && b.is_directory == c.is_directory {
        lemma_lex_le_trans(lower_of(a.name@), lower_of(b.name@), lower_of(c.name@));
    }
}

/// Decides the listing order.
fn entry_le_exec(a: &DirectoryEntryInfo, b: &DirectoryEntryInfo) -> (r: bool)
    ensures
        r == entry_le(*a, *b),
{
    if a.is_directory && !b.is_directory {
        true
    } else if !a.is_directory && b.is_directory {
        false
    } else {
        let la = lowercase(a.name.as_str());
        let lb = lowercase(b.name.as_str());
        let va = str_chars(la.as_str());
        let vb = str_chars(lb.as_str());
        chars_le(&va, &vb)
    }
}

/// Inserts `e` where the order puts it.
fn insert_sorted(out: &mut Vec<DirectoryEntryInfo>, e: DirectoryEntryInfo)
    requires
        entries_ordered(old(out)@),
    ensures
        entries_ordered(final(out)@),
        final(out)@.to_multiset() =~= old(out)@.to_multiset().insert(e),
{
    let ghost pre = out@;
    let ghost leq = |x: DirectoryEntryInfo, y: DirectoryEntryInfo| entry_le(x, y);
    let n = out.len();
    let mut j: usize = 0;
    loop
        invariant
            j <= n,
            n == out@.len(),
            out@ == pre,
            forall|k: int| 0 <= k < j ==> entry_le(#[trigger] pre[k], e),
        ensures
            j <= n,
            out@ == pre,
            forall|k: int| 0 <= k < j ==> entry_le(#[trigger] pre[k], e),
            j < n ==> !entry_le(pre[j as int], e),
        decreases n - j,
    {
        if j >= n {
            break ;
        }
        if !entry_le_exec(&out[j], &e) {
            break ;
        }
        j = j + 1;
    }
    out.insert(j, e);
    proof {
        let t = pre.insert(j as int, e);
        assert(out@ =~= t);
        if j < pre.len() {
            lemma_entry_le_total(pre[j as int], e);
            assert(entry_le(e, pre[j as int]));
        }
        assert forall|i1: int, i2: int| 0 <= i1 < i2 < t.len() implies #[trigger] leq(
            t[i1],
            t[i2],
        ) by {
            if i1 < j && i2 < j {
                assert(leq(pre[i1], pre[i2]));
            } else if i1 < j && i2 == j {
                assert(entry_le(pre[i1], e));
            } else if i1 < j && i2 > j {
                assert(leq(pre[i1], pre[i2 - 1]));
            } else if i1 == j && i2 > j {
                if i2 - 1 == j {
                    if j < pre.len() {
                        assert(entry_le(e, pre[j as int]));
                    }
                } else {
                    assert(leq(pre[j as int], pre[i2 - 1]));
                    lemma_entry_le_trans(e, pre[j as int], pre[i2 - 1]);
                }
            } else {
                assert(leq(pre[i1 - 1], pre[i2 - 1]));
            }
        }
        assert(t.remove(j as int) =~= pre);
        assert(t[j as int] == e);
        assert(pre.to_multiset() =~= t.to_multiset().remove(e));
        assert(t.to_multiset().contains(e)) by {
            assert(t.contains(e));
        }
        assert(t.to_multiset() =~= pre.to_multiset().insert(e));
    }
}

/// The listing, ordered: every directory before every file, and names within
/// each group in case-insensitive order. The entries are exactly those given.
pub fn list_directory_contents(entries: Vec<DirectoryEntryInfo>) -> (r: Vec<DirectoryEntryInfo>)
    ensures
        entries_ordered(r@),
        r@.to_multiset() =~= entries@.to_multiset(),
{
    let ghost all = entries@;
    let mut input = entries;
    let mut out: Vec<DirectoryEntryInfo> = Vec::new();
    proof {
        assert(out@.to_multiset().add(input@.to_multiset()) =~= all.to_multiset());
    }
    loop
        invariant
            all == entries@,
            entries_ordered(out@),
            out@.to_multiset().add(input@.to_multiset()) =~= all.to_multiset(),
        decreases input@.len(),
    {
        let ghost in_pre = input@;
        match input.pop() {
            None => {
                proof {
                    let oms = out@.to_multiset();
                    let ims = in_pre.to_multiset();
                    assert forall|x: DirectoryEntryInfo| #[trigger] ims.count(x) == 0 by {
                        if ims.count(x) > 0 {
                            assert(in_pre.contains(x));
                        }
                    }
                    assert(oms =~= all.to_multiset()) by {
                        assert(forall|x: DirectoryEntryInfo| #[trigger] all.to_multiset().count(x)
                            == oms.count(x) + ims.count(x));
                    }
                }
                return out;
            },
            Some(e) => {
                let ghost out_pre = out@;
                proof {
                    assert(in_pre =~= input@.push(e));
                    assert(in_pre.to_multiset() =~= input@.to_multiset().insert(e));
                }
                insert_sorted(&mut out, e);
                proof {
                    assert(out@.to_multiset().add(input@.to_multiset()) =~= out_pre.to_multiset()
                        .insert(e).add(input@.to_multiset()));
                    assert(out_pre.to_multiset().insert(e).add(input@.to_multiset())
                        =~= out_pre.to_multiset().add(in_pre.to_multiset()));
                }
            },
        }
    }
}

/// The file entries of a listing, in their given order.
pub open spec fn spec_files_of(s: Seq<DirectoryEntryInfo>) -> Seq<DirectoryEntryInfo> {
    s.filter(|e: DirectoryEntryInfo| e.is_file)
}

/// Picks the file that a random draw lands on: the draw, any value at all,
/// is reduced modulo the number of files. A listing without files is
/// reported empty.
pub fn select_random_file(entries: &Vec<DirectoryEntryInfo>, draw: usize) -> (r: Result<
    DirectoryEntryInfo,
    AppError,
>)
    ensures
        match r {
            Ok(e) => spec_files_of(entries@).len() > 0 && e == spec_files_of(entries@)[draw as int
                % spec_files_of(entries@).len() as int],
            Err(e) => e == AppError::EmptyDirectory && spec_files_of(entries@).len() == 0,
        },
{
    let mut files: Vec<usize> = Vec::new();
    let n = entries.len();
    let mut i: usize = 0;
    while i < n
        invariant
            i <= n == entries@.len(),
            forall|k: int| 0 <= k < files@.len() ==> #[trigger] files@[k] < i,
            files@.len() == spec_files_of(entries@.take(i as int)).len(),
            forall|k: int| 0 <= k < files@.len() ==> entries@[#[trigger] files@[k] as int]
                == spec_files_of(entries@.take(i as int))[k],
        decreases n - i,
    {
        proof {
            reveal(Seq::filter);
            assert(entries@.take(i + 1).drop_last() =~= entries@.take(i as int));
        }
        if entries[i].is_file {
            files.push(i);
        }
        i = i + 1;
    }
    proof {
        assert(entries@.take(n as int) =~= entries@);
    }
    let count = files.len();
    if count == 0 {
        return Err(AppError::EmptyDirectory);
    }
    let idx = files[draw % count];
    Ok(entries[idx].duplicate())
}

} // verus!
