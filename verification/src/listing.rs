//! Choosing files from directory listings: the CSV files of a folder to
//! import, and the newest application log. Listing the directory happens
//! elsewhere.

use crate::csvimport::infer::eq_ignore_ascii_case;
use crate::runtime::seq_less;
use crate::text::{chars_of, owned};
use vstd::prelude::*;
use vstd::multiset::Multiset;

verus! {

broadcast use vstd::seq_lib::group_to_multiset_ensures;

pub proof fn lemma_less_irreflexive(a: Seq<char>)
    ensures
        !seq_less(a, a),
    decreases a.len(),
{
    if a.len() > 0 {
        lemma_less_irreflexive(a.skip(1));
    }
}

pub proof fn lemma_less_transitive(a: Seq<char>, b: Seq<char>, c: Seq<char>)
    requires
        seq_less(a, b),
        seq_less(b, c),
    ensures
        seq_less(a, c),
    decreases a.len(),
{
    if a.len() > 0 && b.len() > 0 && c.len() > 0 && a[0] == b[0] && b[0] == c[0] {
        lemma_less_transitive(a.skip(1), b.skip(1), c.skip(1));
    }
}

pub proof fn lemma_less_total(a: Seq<char>, b: Seq<char>)
    ensures
        a == b || seq_less(a, b) || seq_less(b, a),
    decreases a.len(),
{
    if a.len() > 0 && b.len() > 0 && a[0] == b[0] {
        lemma_less_total(a.skip(1), b.skip(1));
        if a.skip(1) == b.skip(1) {
            assert(a =~= seq![a[0]] + a.skip(1));
            assert(b =~= seq![b[0]] + b.skip(1));
        }
    } else if a.len() == 0 && b.len() == 0 {
        assert(a =~= b);
    }
}

proof fn lemma_less_asymmetric(a: Seq<char>, b: Seq<char>)
    requires
        seq_less(a, b),
    ensures
        !seq_less(b, a),
{
    if seq_less(b, a) {
        lemma_less_transitive(a, b, a);
        lemma_less_irreflexive(a);
    }
}

/// In ascending order (as `str` orders text: by character code).
pub open spec fn sorted(s: Seq<Seq<char>>) -> bool {
    forall|i: int, j: int| 0 <= i < j < s.len() ==> !seq_less(#[trigger] s[j], #[trigger] s[i])
}

fn less(a: &str, b: &str) -> (r: bool)
    ensures
        r == seq_less(a@, b@),
{
    let x = chars_of(a);
    let y = chars_of(b);
    let mut i: usize = 0;
    assert(x@.skip(0) =~= x@);
    assert(y@.skip(0) =~= y@);
    while i < x.len() && i < y.len() && x[i] == y[i]
        invariant
            x@ == a@,
            y@ == b@,
            i <= x@.len(),
            i <= y@.len(),
            seq_less(a@, b@) == seq_less(x@.skip(i as int), y@.skip(i as int)),
        decreases x@.len() - i,
    {
        assert(x@.skip(i as int).skip(1) =~= x@.skip(i + 1));
        assert(y@.skip(i as int).skip(1) =~= y@.skip(i + 1));
        i += 1;
    }
    if i == y.len() {
        false
    } else if i == x.len() {
        true
    } else {
        x[i] < y[i]
    }
}

pub open spec fn strs_view(v: Seq<String>) -> Seq<Seq<char>> {
    v.map_values(|s: String| s@)
}

/// The names in ascending order (a stable sort).
pub fn sort_strings(names: Vec<String>) -> (r: Vec<String>)
    ensures
        sorted(strs_view(r@)),
        strs_view(r@).to_multiset() == strs_view(names@).to_multiset(),
{
    let ghost input = strs_view(names@);
    let mut out: Vec<String> = Vec::new();
    let mut rest = names;
    let ghost mut taken: Seq<Seq<char>> = Seq::empty();
    // take from the back, insert keeping order
    while rest.len() > 0
        invariant
            sorted(strs_view(out@)),
            strs_view(out@).to_multiset().add(strs_view(rest@).to_multiset()) == input.to_multiset(),
        decreases rest@.len(),
    {
        let ghost before_rest = strs_view(rest@);
        let x = rest.pop().unwrap();
        assert(before_rest =~= strs_view(rest@).push(x@));
        let mut p: usize = 0;
        while p < out.len() && !less(x.as_str(), out[p].as_str())
            invariant
                p <= out@.len(),
                sorted(strs_view(out@)),
                forall|k: int| 0 <= k < p ==> !seq_less(x@, #[trigger] strs_view(out@)[k]),
            decreases out@.len() - p,
        {
            p += 1;
        }
        let ghost o = strs_view(out@);
        proof {
            assert forall|k: int| p <= k < o.len() implies seq_less(x@, #[trigger] o[k]) by {
                assert(seq_less(x@, o[p as int]));
                if k > p {
                    assert(!seq_less(o[k], o[p as int]));
                    lemma_less_total(o[k], o[p as int]);
                    if o[k] != o[p as int] {
                        lemma_less_transitive(x@, o[p as int], o[k]);
                    }
                }
            }
        }
        out.insert(p, x);
        proof {
            let n = strs_view(out@);
            assert(n =~= o.insert(p as int, x@));
            assert forall|i: int, j: int| 0 <= i < j < n.len() implies !seq_less(#[trigger] n[j], #[trigger] n[i]) by {
                if i < p && j == p {
                    assert(!seq_less(x@, o[i]));
                } else if i == p && j > p {
                    assert(seq_less(x@, o[j - 1]));
                    lemma_less_asymmetric(x@, o[j - 1]);
                } else if i < p && j > p {
                    assert(!seq_less(o[j - 1], o[i]));
                } else if i > p {
                    assert(!seq_less(o[j - 1], o[i - 1]));
                }
            }
            assert(n.to_multiset() == o.to_multiset().insert(x@));
            assert(before_rest.to_multiset() == strs_view(rest@).to_multiset().insert(x@));
            assert(n.to_multiset().add(strs_view(rest@).to_multiset()) =~= o.to_multiset().add(before_rest.to_multiset())) by {
                broadcast use vstd::multiset::group_multiset_axioms;
            }
        }
    }
    proof {
        broadcast use vstd::multiset::group_multiset_axioms;
        assert(strs_view(rest@) =~= Seq::<Seq<char>>::empty());
        assert(strs_view(out@).to_multiset().add(Multiset::empty()) =~= strs_view(out@).to_multiset());
    }
    out
}

/// `Path::extension` of a path (lossy as text), if it has one.
pub uninterp spec fn path_extension(p: Seq<char>) -> Option<Seq<char>>;

#[verifier::external_body]
fn extension_of(p: &str) -> (r: Option<String>)
    ensures
        match r {
            Some(e) => path_extension(p@) == Some(e@),
            None => path_extension(p@) is None,
        },
{
    std::path::Path::new(p).extension().map(|x| x.to_string_lossy().into_owned())
}

/// A listed entry is a CSV file: a regular file whose extension is `csv`
/// in any letter case.
pub open spec fn is_csv_file(path: Seq<char>, is_file: bool) -> bool {
    is_file && match path_extension(path) {
        Some(e) => eq_ignore_ascii_case(e, "csv"@),
        None => false,
    }
}

/// The CSV files of a folder listing (path, is a regular file), sorted.
pub fn csv_files(entries: &Vec<(String, bool)>) -> (r: Vec<String>)
    ensures
        sorted(strs_view(r@)),
        strs_view(r@).to_multiset() == entries@.filter(|e: (String, bool)| is_csv_file(e.0@, e.1)).map_values(
            |e: (String, bool)| e.0@,
        ).to_multiset(),
{
    let ghost f = |e: (String, bool)| is_csv_file(e.0@, e.1);
    let mut picked: Vec<String> = Vec::new();
    let mut i: usize = 0;
    while i < entries.len()
        invariant
            i <= entries@.len(),
            f == (|e: (String, bool)| is_csv_file(e.0@, e.1)),
            strs_view(picked@) == entries@.take(i as int).filter(f).map_values(|e: (String, bool)| e.0@),
        decreases entries@.len() - i,
    {
        proof {
            reveal(Seq::filter);
            assert(entries@.take(i + 1).drop_last() =~= entries@.take(i as int));
            assert(entries@.take(i + 1).last() == entries@[i as int]);
        }
        let e = &entries[i];
        let ext_ok = match extension_of(e.0.as_str()) {
            Some(x) => {
                let xv = chars_of(x.as_str());
                assert(xv@.subrange(0, xv@.len() as int) =~= xv@);
                crate::csvimport::infer::eq_ic(&xv, 0, xv.len(), "csv")
            },
            None => false,
        };
        assert(ext_ok == match path_extension(e.0@) {
            Some(x) => eq_ignore_ascii_case(x, "csv"@),
            None => false,
        });
        let keep = e.1 && ext_ok;
        assert(keep == is_csv_file(e.0@, e.1));
        let ghost before = strs_view(picked@);
        assert(keep == f(entries@[i as int]));
        assert(entries@.take(i + 1).filter(f) == if f(entries@[i as int]) {
            entries@.take(i as int).filter(f).push(entries@[i as int])
        } else {
            entries@.take(i as int).filter(f)
        });
        if keep {
            picked.push(owned(e.0.as_str()));
            assert(strs_view(picked@) =~= before.push(e.0@));
        }
        assert(strs_view(picked@) =~= entries@.take(i + 1).filter(f).map_values(|e: (String, bool)| e.0@));
        i += 1;
    }
    assert(entries@.take(entries@.len() as int) =~= entries@);
    sort_strings(picked)
}

/// The application log's file-name prefix (rotated logs share it).
pub const APP_LOG_PREFIX: &'static str = "bakehouse.log";

pub open spec fn is_app_log(name: Seq<char>) -> bool {
    name.len() >= APP_LOG_PREFIX@.len() && name.take(APP_LOG_PREFIX@.len() as int) == APP_LOG_PREFIX@
}

/// The newest application log of a log-folder listing: the greatest name
/// among those with the log prefix.
pub fn latest_app_log(names: &Vec<String>) -> (r: Option<usize>)
    ensures
        match r {
            Some(i) => i < names@.len() && is_app_log(names@[i as int]@) && forall|j: int|
                0 <= j < names@.len() && is_app_log(#[trigger] names@[j]@) ==> !seq_less(names@[i as int]@, names@[j]@),
            None => forall|j: int| 0 <= j < names@.len() ==> !is_app_log(#[trigger] names@[j]@),
        },
{
    let prefix = chars_of(APP_LOG_PREFIX);
    let mut best: Option<usize> = None;
    let mut i: usize = 0;
    while i < names.len()
        invariant
            i <= names@.len(),
            prefix@ == APP_LOG_PREFIX@,
            match best {
                Some(b) => b < i && is_app_log(names@[b as int]@) && forall|j: int|
                    0 <= j < i && is_app_log(#[trigger] names@[j]@) ==> !seq_less(names@[b as int]@, names@[j]@),
                None => forall|j: int| 0 <= j < i ==> !is_app_log(#[trigger] names@[j]@),
            },
        decreases names@.len() - i,
    {
        let v = chars_of(names[i].as_str());
        let mut ok = v.len() >= prefix.len();
        if ok {
            let mut k: usize = 0;
            while k < prefix.len()
                invariant
                    k <= prefix@.len() <= v@.len(),
                    ok == (forall|x: int| 0 <= x < k ==> v@[x] == prefix@[x]),
                decreases prefix@.len() - k,
            {
                if v[k] != prefix[k] {
                    ok = false;
                }
                k += 1;
            }
            assert(ok == (v@.take(prefix@.len() as int) =~= prefix@)) by {
                if !ok && v@.take(prefix@.len() as int) == prefix@ {
                    assert forall|x: int| 0 <= x < prefix@.len() implies v@[x] == prefix@[x] by {
                        assert(v@.take(prefix@.len() as int)[x] == v@[x]);
                    }
                }
            }
        }
        assert(ok == is_app_log(names@[i as int]@));
        if ok {
            match best {
                Some(b) => {
                    if less(names[b].as_str(), names[i].as_str()) {
                        proof {
                            assert forall|j: int| 0 <= j < i + 1 && is_app_log(#[trigger] names@[j]@) implies !seq_less(
                                names@[i as int]@,
                                names@[j]@,
                            ) by {
                                if j < i {
                                    assert(!seq_less(names@[b as int]@, names@[j]@));
                                    lemma_less_total(names@[b as int]@, names@[j]@);
                                    if names@[b as int]@ != names@[j]@ {
                                        lemma_less_transitive(names@[j]@, names@[b as int]@, names@[i as int]@);
                                        lemma_less_asymmetric(names@[j]@, names@[i as int]@);
                                    } else {
                                        lemma_less_asymmetric(names@[b as int]@, names@[i as int]@);
                                    }
                                } else {
                                    lemma_less_irreflexive(names@[i as int]@);
                                }
                            }
                        }
                        best = Some(i);
                    }
                },
                None => {
                    proof {
                        lemma_less_irreflexive(names@[i as int]@);
                    }
                    best = Some(i);
                },
            }
        }
        i += 1;
    }
    best
}

} // verus!
