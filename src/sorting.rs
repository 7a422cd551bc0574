use vstd::prelude::*;
use vstd::multiset::Multiset;
use crate::file::File;
use crate::text::{bytes_le, lemma_bytes_le_antisymmetric, lemma_bytes_le_total, lemma_bytes_le_transitive, str_eq, str_le, utf8_of};

verus! {

/// Direction of an ordering.
#[derive(Clone, Copy, Debug, PartialEq, Eq, Structural)]
pub enum SortOrder {
    Ascending,
    Descending,
}

/// Platform tag carried by the default ordering; it does not change the order.
#[derive(Clone, Copy, Debug, PartialEq, Eq, Structural)]
pub enum SortTypeDefault {
    Unix,
    Windows,
}

/// How a listing is ordered.
///
/// `Default` puts directories first, each group by name. `Name` orders by
/// name. `Size` and `Modified` keep the historical convention of this
/// browser: `Ascending` puts the largest (newest) first, `Descending` the
/// smallest (oldest) first.
#[derive(Clone, Copy, Debug, PartialEq, Eq, Structural)]
pub enum SortType {
    Default(SortTypeDefault),
    Name(SortOrder),
    Size(SortOrder),
    Modified(SortOrder),
}

/// Relies on `std::path::is_separator`: whether `c` separates path
/// components on this platform; `/` does on every platform.
#[verifier::external_body]
fn is_path_separator(c: char) -> (r: bool)
    ensures
        c == '/' ==> r,
{
    std::path::is_separator(c)
}

impl Default for SortType {
    /// The default ordering, tagged with the platform: Windows where a backslash
    /// separates paths, Unix elsewhere.
    fn default() -> (r: Self)
        ensures
            r is Default,
    {
        if is_path_separator('\\') {
            SortType::Default(SortTypeDefault::Windows)
        } else {
            SortType::Default(SortTypeDefault::Unix)
        }
    }
}

/// A sort parameter that is not one of the accepted forms.
#[derive(Debug)]
pub enum SortingError {
    /// Holds the text that was rejected.
    InvalidFormat(String),
}

/// The text `"<key>.<direction>"` that selects an ordering.
pub open spec fn sorting_text(t: SortType) -> Seq<char> {
    match t {
        SortType::Default(SortTypeDefault::Unix) => "default.unix"@,
        SortType::Default(SortTypeDefault::Windows) => "default.windows"@,
        SortType::Name(SortOrder::Ascending) => "name.ascending"@,
        SortType::Name(SortOrder::Descending) => "name.descending"@,
        SortType::Size(SortOrder::Ascending) => "size.ascending"@,
        SortType::Size(SortOrder::Descending) => "size.descending"@,
        SortType::Modified(SortOrder::Ascending) => "modified.ascending"@,
        SortType::Modified(SortOrder::Descending) => "modified.descending"@,
    }
}

/// Parses a sort parameter. Exactly the eight texts of `sorting_text` are
/// accepted; anything else is reported, never replaced by a default.
pub fn deserialize_sorting(s: &str) -> (r: Result<SortType, SortingError>)
    ensures
        match r {
            Ok(t) => s@ == sorting_text(t),
            Err(SortingError::InvalidFormat(e)) => e@ == s@ && forall|t: SortType|
                s@ != sorting_text(t),
        },
{
    if str_eq(s, "default.unix") {
        Ok(SortType::Default(SortTypeDefault::Unix))
    } else if str_eq(s, "default.windows") {
        Ok(SortType::Default(SortTypeDefault::Windows))
    } else if str_eq(s, "name.ascending") {
        Ok(SortType::Name(SortOrder::Ascending))
    } else if str_eq(s, "name.descending") {
        Ok(SortType::Name(SortOrder::Descending))
    } else if str_eq(s, "size.ascending") {
        Ok(SortType::Size(SortOrder::Ascending))
    } else if str_eq(s, "size.descending") {
        Ok(SortType::Size(SortOrder::Descending))
    } else if str_eq(s, "modified.ascending") {
        Ok(SortType::Modified(SortOrder::Ascending))
    } else if str_eq(s, "modified.descending") {
        Ok(SortType::Modified(SortOrder::Descending))
    } else {
        Err(SortingError::InvalidFormat(s.to_owned()))
    }
}

/// The bytes of an entry's name, by which names are ordered.
pub open spec fn name_key(f: File) -> Seq<u8> {
    utf8_of(f.name@)
}

/// Whether `a` may stand before `b` in a listing ordered by `by`.
pub open spec fn precedes(a: File, b: File, by: SortType) -> bool {
    match by {
        SortType::Default(_) => (a.is_directory && !b.is_directory) || (a.is_directory
            == b.is_directory && bytes_le(name_key(a), name_key(b))),
        SortType::Name(SortOrder::Ascending) => bytes_le(name_key(a), name_key(b)),
        SortType::Name(SortOrder::Descending) => bytes_le(name_key(b), name_key(a)),
        SortType::Size(SortOrder::Ascending) => b.size <= a.size,
        SortType::Size(SortOrder::Descending) => a.size <= b.size,
        SortType::Modified(SortOrder::Ascending) => b.modified <= a.modified,
        SortType::Modified(SortOrder::Descending) => a.modified <= b.modified,
    }
}

/// Every entry of `s` may stand before every later one.
pub open spec fn sorted_by(s: Seq<File>, by: SortType) -> bool {
    forall|i: int, j: int| 0 <= i < j < s.len() ==> precedes(#[trigger] s[i], #[trigger] s[j], by)
}

/// `out[i]` is `input[p[i]]`, no input position is used twice, and entries
/// that `by` ties keep the order they had in `input`.
pub open spec fn stable_arrangement(input: Seq<File>, by: SortType, out: Seq<File>, p: Seq<int>) -> bool {
    &&& out.len() == input.len()
    &&& p.len() == out.len()
    &&& forall|i: int| 0 <= i < out.len() ==> 0 <= #[trigger] p[i] < input.len() && out[i] == input[p[i]]
    &&& forall|i: int, j: int| 0 <= i < j < out.len() ==> #[trigger] p[i] != #[trigger] p[j]
    &&& forall|i: int, j: int|
        0 <= i < j < out.len() && precedes(#[trigger] out[j], #[trigger] out[i], by) ==> p[i] < p[j]
}

/// `out` is `input` ordered by `by`: the same entries, in order, entries
/// that tie in their original order, and `input` itself where it was
/// already in order.
pub open spec fn sorts_to(input: Seq<File>, by: SortType, out: Seq<File>) -> bool {
    &&& out.to_multiset() == input.to_multiset()
    &&& sorted_by(out, by)
    &&& exists|p: Seq<int>| stable_arrangement(input, by, out, p)
    &&& sorted_by(input, by) ==> out == input
}

pub proof fn lemma_precedes_total(a: File, b: File, by: SortType)
    ensures
        precedes(a, b, by) || precedes(b, a, by),
{
    lemma_bytes_le_total(name_key(a), name_key(b));
}

pub proof fn lemma_precedes_transitive(a: File, b: File, c: File, by: SortType)
    requires
        precedes(a, b, by),
        precedes(b, c, by),
    ensures
        precedes(a, c, by),
{
    match by {
        SortType::Name(SortOrder::Descending) => {
            if bytes_le(name_key(c), name_key(b)) && bytes_le(name_key(b), name_key(a)) {
                lemma_bytes_le_transitive(name_key(c), name_key(b), name_key(a));
            }
        },
        _ => {
            if bytes_le(name_key(a), name_key(b)) && bytes_le(name_key(b), name_key(c)) {
                lemma_bytes_le_transitive(name_key(a), name_key(b), name_key(c));
            }
        },
    }
}

proof fn lemma_insert_sorted(s: Seq<File>, k: int, x: File, by: SortType)
    requires
        sorted_by(s, by),
        0 <= k <= s.len(),
        forall|j: int| 0 <= j < k ==> precedes(#[trigger] s[j], x, by),
        forall|j: int| k <= j < s.len() ==> precedes(x, #[trigger] s[j], by),
    ensures
        sorted_by(s.insert(k, x), by),
{
    let t = s.insert(k, x);
    assert forall|i: int, j: int| 0 <= i < j < t.len() implies precedes(#[trigger] t[i], #[trigger] t[j], by) by {
        if i < k && j > k {
            assert(t[i] == s[i] && t[j] == s[j - 1]);
        } else if j < k {
            assert(t[i] == s[i] && t[j] == s[j]);
        } else if i > k {
            assert(t[i] == s[i - 1] && t[j] == s[j - 1]);
        }
    }
}

/// Decides `precedes`.
pub fn precedes_exec(a: &File, b: &File, by: &SortType) -> (r: bool)
    ensures
        r == precedes(*a, *b, *by),
{
    match by {
        SortType::Default(_) => {
            if a.is_directory != b.is_directory {
                a.is_directory
            } else {
                str_le(a.name.as_str(), b.name.as_str())
            }
        },
        SortType::Name(SortOrder::Ascending) => str_le(a.name.as_str(), b.name.as_str()),
        SortType::Name(SortOrder::Descending) => str_le(b.name.as_str(), a.name.as_str()),
        SortType::Size(SortOrder::Ascending) => b.size <= a.size,
        SortType::Size(SortOrder::Descending) => a.size <= b.size,
        SortType::Modified(SortOrder::Ascending) => b.modified <= a.modified,
        SortType::Modified(SortOrder::Descending) => a.modified <= b.modified,
    }
}

/// Orders a listing.
pub struct FileSorter {
    files: Vec<File>,
}

impl View for FileSorter {
    type V = Seq<File>;

    closed spec fn view(&self) -> Seq<File> {
        self.files@
    }
}

impl FileSorter {
    pub fn new(files: Vec<File>) -> (r: Self)
        ensures
            r@ == files@,
    {
        FileSorter { files }
    }

    /// The entries ordered by `sort_type`. Entries that tie keep their
    /// relative order.
    pub fn sort(self, sort_type: &SortType) -> (r: Vec<File>)
        ensures
            sorts_to(self@, *sort_type, r@),
    {
        broadcast use vstd::seq_lib::group_to_multiset_ensures;

        let by = *sort_type;
        let mut rest = self.files;
        let ghost input = rest@;
        let mut out: Vec<File> = Vec::new();
        let ghost mut p: Seq<int> = Seq::empty();
        assert(input.subrange(0, input.len() as int) =~= input);
        while rest.len() > 0
            invariant
                p.len() == out@.len(),
                forall|i: int| 0 <= i < out@.len() ==> 0 <= #[trigger] p[i] < out@.len() && out@[i] == input[p[i]],
                forall|i: int, j: int| 0 <= i < j < out@.len() ==> #[trigger] p[i] != #[trigger] p[j],
                forall|i: int, j: int|
                    0 <= i < j < out@.len() && precedes(#[trigger] out@[j], #[trigger] out@[i], by) ==> p[i] < p[j],
                out@.to_multiset().add(rest@.to_multiset()) == input.to_multiset(),
                sorted_by(out@, by),
                out@.len() + rest@.len() == input.len(),
                rest@ == input.subrange(out@.len() as int, input.len() as int),
                sorted_by(input, by) ==> out@ == input.subrange(0, out@.len() as int),
            decreases rest@.len(),
        {
            let ghost m = out@.len() as int;
            let ghost rest0 = rest@;
            let ghost out0 = out@;
            let x = rest.remove(0);
            proof {
                assert(rest0[0] == x);
                assert(rest0.contains(x));
                vstd::seq_lib::to_multiset_contains(rest0, x);
                vstd::seq_lib::to_multiset_remove(rest0, 0);
                assert(rest@ == rest0.remove(0));
            }
            assert(x == input[m]);
            assert(rest@ =~= input.subrange(m + 1, input.len() as int));
            let mut k: usize = out.len();
            while k > 0
                invariant
                    k <= out@.len(),
                    forall|j: int| k <= j < out@.len() ==> !precedes(#[trigger] out@[j], x, by),
                ensures
                    k <= out@.len(),
                    forall|j: int| k <= j < out@.len() ==> !precedes(#[trigger] out@[j], x, by),
                    k == 0 || precedes(out@[k - 1], x, by),
                decreases k,
            {
                if precedes_exec(&out[k - 1], &x, &by) {
                    break;
                }
                k = k - 1;
            }
            proof {
                if sorted_by(input, by) {
                    assert forall|j: int| 0 <= j < m implies precedes(#[trigger] out@[j], x, by) by {
                        assert(out@[j] == input[j]);
                    }
                    if k < m {
                        assert(!precedes(out@[m - 1], x, by));
                    }
                }
                assert forall|j: int| 0 <= j < k implies precedes(#[trigger] out@[j], x, by) by {
                    if j < k - 1 {
                        lemma_precedes_transitive(out@[j], out@[k - 1], x, by);
                    }
                }
                assert forall|j: int| k <= j < out@.len() implies precedes(x, #[trigger] out@[j], by) by {
                    lemma_precedes_total(out@[j], x, by);
                }
                lemma_insert_sorted(out@, k as int, x, by);
            }
            out.insert(k, x);
            proof {
                let p0 = p;
                p = p.insert(k as int, m);
                assert forall|i: int| 0 <= i < out@.len() implies 0 <= #[trigger] p[i] < out@.len() && out@[i] == input[p[i]] by {
                    if i < k {
                        assert(p[i] == p0[i] && out@[i] == out0[i]);
                    } else if i > k {
                        assert(p[i] == p0[i - 1] && out@[i] == out0[i - 1]);
                    }
                }
                assert forall|i: int, j: int| 0 <= i < j < out@.len() implies #[trigger] p[i] != #[trigger] p[j] by {
                    if j < k {
                        assert(p[i] == p0[i] && p[j] == p0[j]);
                    } else if i > k {
                        assert(p[i] == p0[i - 1] && p[j] == p0[j - 1]);
                    } else if i < k && j > k {
                        assert(p[i] == p0[i] && p[j] == p0[j - 1]);
                    } else if i == k {
                        assert(p[j] == p0[j - 1]);
                    } else {
                        assert(p[i] == p0[i]);
                    }
                }
                assert forall|i: int, j: int|
                    0 <= i < j < out@.len() && precedes(#[trigger] out@[j], #[trigger] out@[i], by) implies p[i] < p[j] by {
                    if j < k {
                        assert(p[i] == p0[i] && p[j] == p0[j] && out@[i] == out0[i] && out@[j] == out0[j]);
                    } else if i > k {
                        assert(p[i] == p0[i - 1] && p[j] == p0[j - 1] && out@[i] == out0[i - 1] && out@[j] == out0[j - 1]);
                    } else if i < k && j > k {
                        assert(p[i] == p0[i] && p[j] == p0[j - 1] && out@[i] == out0[i] && out@[j] == out0[j - 1]);
                    } else if i == k {
                        assert(p[j] == p0[j - 1] && out@[j] == out0[j - 1]);
                    } else {
                        assert(p[i] == p0[i]);
                    }
                }
                broadcast use vstd::multiset::group_multiset_axioms;

                vstd::seq_lib::to_multiset_insert(out0, k as int, x);
                assert(out@ == out0.insert(k as int, x));
                assert(out@.to_multiset().add(rest@.to_multiset()) =~= out0.to_multiset().add(rest0.to_multiset()));
                if sorted_by(input, by) {
                    assert(out@ =~= input.subrange(0, m + 1));
                }
            }
        }
        assert(rest@.to_multiset() =~= Multiset::empty());
        assert(out@.to_multiset().add(Multiset::empty()) =~= out@.to_multiset());
        assert(input.subrange(0, input.len() as int) =~= input);
        assert(stable_arrangement(input, by, out@, p));
        out
    }
}

/// No two entries of `s` that `by` ties are different.
pub open spec fn ties_are_equal(s: Seq<File>, by: SortType) -> bool {
    forall|x: File, y: File|
        s.contains(x) && s.contains(y) && precedes(x, y, by) && precedes(y, x, by) ==> x == y
}

proof fn lemma_sorted_unique(s1: Seq<File>, s2: Seq<File>, by: SortType)
    requires
        s1.to_multiset() == s2.to_multiset(),
        sorted_by(s1, by),
        sorted_by(s2, by),
        ties_are_equal(s1, by),
    ensures
        s1 == s2,
    decreases s1.len(),
{
    broadcast use vstd::seq_lib::group_to_multiset_ensures;

    vstd::seq_lib::to_multiset_len(s1);
    vstd::seq_lib::to_multiset_len(s2);
    if s1.len() == 0 {
        assert(s2.len() == 0);
        assert(s1 =~= s2);
    } else {
        assert(s2.len() == s1.len());
        let a = s1[0];
        let b = s2[0];
        assert(s1.contains(a));
        assert(s2.contains(b));
        vstd::seq_lib::to_multiset_contains(s1, a);
        vstd::seq_lib::to_multiset_contains(s2, a);
        vstd::seq_lib::to_multiset_contains(s1, b);
        vstd::seq_lib::to_multiset_contains(s2, b);
        assert(s2.contains(a));
        assert(s1.contains(b));
        let j = choose|j: int| 0 <= j < s2.len() && s2[j] == a;
        let i = choose|i: int| 0 <= i < s1.len() && s1[i] == b;
        if j > 0 {
            assert(precedes(s2[0], s2[j], by));
        }
        if i > 0 {
            assert(precedes(s1[0], s1[i], by));
        }
        if i > 0 && j > 0 {
            assert(a == b);
        }
        assert(a == b);
        let t1 = s1.drop_first();
        let t2 = s2.drop_first();
        assert(t1 == s1.remove(0));
        assert(t2 == s2.remove(0));
        assert(sorted_by(t1, by)) by {
            assert forall|p: int, q: int| 0 <= p < q < t1.len() implies precedes(#[trigger] t1[p], #[trigger] t1[q], by) by {
                assert(t1[p] == s1[p + 1] && t1[q] == s1[q + 1]);
            }
        }
        assert(sorted_by(t2, by)) by {
            assert forall|p: int, q: int| 0 <= p < q < t2.len() implies precedes(#[trigger] t2[p], #[trigger] t2[q], by) by {
                assert(t2[p] == s2[p + 1] && t2[q] == s2[q + 1]);
            }
        }
        assert(ties_are_equal(t1, by)) by {
            assert forall|x: File, y: File|
                t1.contains(x) && t1.contains(y) && precedes(x, y, by) && precedes(y, x, by) implies x == y by {
                let p = choose|p: int| 0 <= p < t1.len() && t1[p] == x;
                let q = choose|q: int| 0 <= q < t1.len() && t1[q] == y;
                assert(s1[p + 1] == x && s1[q + 1] == y);
                assert(s1.contains(x) && s1.contains(y));
            }
        }
        lemma_sorted_unique(t1, t2, by);
        assert(s1 =~= s2) by {
            assert forall|k: int| 0 <= k < s1.len() implies s1[k] == s2[k] by {
                if k > 0 {
                    assert(s1[k] == t1[k - 1] && s2[k] == t2[k - 1]);
                }
            }
        }
    }
}

/// Ordering by name descending gives exactly the reverse of ordering by
/// name ascending, when no two entries share a name.
pub proof fn lemma_name_order_reverses(l: Seq<File>, asc: Seq<File>, desc: Seq<File>)
    requires
        forall|i: int, j: int| 0 <= i < j < l.len() ==> name_key(#[trigger] l[i]) != name_key(#[trigger] l[j]),
        sorts_to(l, SortType::Name(SortOrder::Ascending), asc),
        sorts_to(l, SortType::Name(SortOrder::Descending), desc),
    ensures
        asc.reverse() == desc,
{
    broadcast use vstd::seq_lib::group_to_multiset_ensures;

    let by = SortType::Name(SortOrder::Descending);
    let r = asc.reverse();
    asc.lemma_reverse_to_multiset();
    assert(sorted_by(r, by)) by {
        assert forall|i: int, j: int| 0 <= i < j < r.len() implies precedes(#[trigger] r[i], #[trigger] r[j], by) by {
            let n = asc.len() as int;
            assert(r[i] == asc[n - 1 - i] && r[j] == asc[n - 1 - j]);
            assert(precedes(asc[n - 1 - j], asc[n - 1 - i], SortType::Name(SortOrder::Ascending)));
        }
    }
    assert(ties_are_equal(desc, by)) by {
        assert forall|x: File, y: File|
            desc.contains(x) && desc.contains(y) && precedes(x, y, by) && precedes(y, x, by) implies x == y by {
            lemma_bytes_le_antisymmetric(name_key(x), name_key(y));
            vstd::seq_lib::to_multiset_contains(desc, x);
            vstd::seq_lib::to_multiset_contains(desc, y);
            vstd::seq_lib::to_multiset_contains(l, x);
            vstd::seq_lib::to_multiset_contains(l, y);
            assert(l.contains(x) && l.contains(y));
            let p = choose|p: int| 0 <= p < l.len() && l[p] == x;
            let q = choose|q: int| 0 <= q < l.len() && l[q] == y;
            if p < q {
                assert(name_key(l[p]) != name_key(l[q]));
            } else if q < p {
                assert(name_key(l[q]) != name_key(l[p]));
            }
        }
    }
    lemma_sorted_unique(desc, r, by);
}

/// In the default order every directory stands before every other entry.
pub proof fn lemma_default_puts_directories_first(l: Seq<File>, platform: SortTypeDefault, out: Seq<File>)
    requires
        sorts_to(l, SortType::Default(platform), out),
    ensures
        forall|i: int, j: int|
            0 <= i < out.len() && 0 <= j < out.len() && (#[trigger] out[i]).is_directory
                && !(#[trigger] out[j]).is_directory ==> i < j,
{
    assert forall|i: int, j: int|
        0 <= i < out.len() && 0 <= j < out.len() && (#[trigger] out[i]).is_directory
            && !(#[trigger] out[j]).is_directory implies i < j by {
        if j < i {
            assert(precedes(out[j], out[i], SortType::Default(platform)));
        }
    }
}

/// Ordering an ordered listing again leaves it as it is.
pub proof fn lemma_sort_idempotent(l: Seq<File>, by: SortType, once: Seq<File>, twice: Seq<File>)
    requires
        sorts_to(l, by, once),
        sorts_to(once, by, twice),
    ensures
        twice == once,
{
}

} // verus!
