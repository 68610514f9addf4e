//! "Generate Scripts": several objects scripted into one T-SQL file, in
//! dependency order. Objects are first ordered by category (tables, then
//! functions, views, procedures and the rest), keeping the selection order
//! within a category; then each step emits the first remaining object that
//! depends on no other remaining object, or, when every remaining object
//! waits on another (a dependency cycle), the first remaining one.

use super::meta::{spec_quote_ident, spec_type_filter, ScriptedObject};
use crate::csvimport::infer::{int_text_value, parse_i64};
use crate::csvimport::inspect::table_view;
use crate::error::{is_internal_error, AppError};
use crate::text::{dec_int, extend_chars, extend_str, i64_dec, owned, push_trim_end, rtrim, str_eq, string_of};
use vstd::prelude::*;
use vstd::multiset::Multiset;

verus! {

broadcast use vstd::seq_lib::group_to_multiset_ensures;

/// Category rank of a `sys.objects` type code.
pub open spec fn spec_rank(t: Seq<char>) -> nat {
    if t == "U"@ {
        0
    } else if t == "FN"@ || t == "IF"@ || t == "TF"@ {
        1
    } else if t == "V"@ {
        2
    } else {
        3
    }
}

pub fn rank(t: &str) -> (r: u8)
    ensures
        r == spec_rank(t@),
{
    if str_eq(t, "U") {
        0
    } else if str_eq(t, "FN") || str_eq(t, "IF") || str_eq(t, "TF") {
        1
    } else if str_eq(t, "V") {
        2
    } else {
        3
    }
}

pub open spec fn kinds_view(kinds: Seq<(i64, String)>) -> Seq<(i64, Seq<char>)> {
    kinds.map_values(|k: (i64, String)| (k.0, k.1@))
}

/// The type recorded for `id` (the last record wins), empty when none.
pub open spec fn kind_in(kinds: Seq<(i64, Seq<char>)>, id: i64) -> Seq<char>
    decreases kinds.len(),
{
    if kinds.len() == 0 {
        Seq::empty()
    } else if kinds.last().0 == id {
        kinds.last().1
    } else {
        kind_in(kinds.drop_last(), id)
    }
}

pub open spec fn rank_of(kinds: Seq<(i64, Seq<char>)>, id: i64) -> nat {
    spec_rank(kind_in(kinds, id))
}

/// The selection ordered by category, stable within a category.
pub open spec fn base_order(ids: Seq<i64>, kinds: Seq<(i64, Seq<char>)>) -> Seq<i64> {
    ids.filter(|x: i64| rank_of(kinds, x) == 0) + ids.filter(|x: i64| rank_of(kinds, x) == 1) + ids.filter(
        |x: i64| rank_of(kinds, x) == 2,
    ) + ids.filter(|x: i64| rank_of(kinds, x) == 3)
}

/// `id` depends on nothing that is still in `rem`.
pub open spec fn ready(rem: Seq<i64>, deps: Seq<(i64, i64)>, id: i64) -> bool {
    forall|k: int| 0 <= k < deps.len() ==> !((#[trigger] deps[k]).0 == id && rem.contains(deps[k].1))
}

pub open spec fn first_ready(rem: Seq<i64>, deps: Seq<(i64, i64)>, i: int) -> Option<int>
    decreases rem.len() - i,
{
    if i < 0 || i >= rem.len() {
        None
    } else if ready(rem, deps, rem[i]) {
        Some(i)
    } else {
        first_ready(rem, deps, i + 1)
    }
}

/// The position emitted next: the first ready object, else the first.
pub open spec fn pick(rem: Seq<i64>, deps: Seq<(i64, i64)>) -> int {
    match first_ready(rem, deps, 0) {
        Some(i) => i,
        None => 0,
    }
}

pub open spec fn kahn(rem: Seq<i64>, deps: Seq<(i64, i64)>) -> Seq<i64>
    decreases rem.len(),
{
    if rem.len() == 0 {
        seq![]
    } else {
        let p = pick(rem, deps);
        proof {
            lemma_pick_in_range(rem, deps);
        }
        seq![rem[p]] + kahn(rem.remove(p), deps)
    }
}

pub proof fn lemma_first_ready(rem: Seq<i64>, deps: Seq<(i64, i64)>, i: int)
    requires
        0 <= i,
    ensures
        match first_ready(rem, deps, i) {
            Some(p) => i <= p < rem.len() && ready(rem, deps, rem[p]) && forall|j: int|
                i <= j < p ==> !ready(rem, deps, #[trigger] rem[j]),
            None => forall|j: int| i <= j < rem.len() ==> !ready(rem, deps, #[trigger] rem[j]),
        },
    decreases rem.len() - i,
{
    if i < rem.len() && !ready(rem, deps, rem[i]) {
        lemma_first_ready(rem, deps, i + 1);
    }
}

pub proof fn lemma_pick_in_range(rem: Seq<i64>, deps: Seq<(i64, i64)>)
    requires
        rem.len() > 0,
    ensures
        0 <= pick(rem, deps) < rem.len(),
{
    lemma_first_ready(rem, deps, 0);
}

/// The order objects are scripted in.
pub open spec fn spec_script_order(ids: Seq<i64>, kinds: Seq<(i64, Seq<char>)>, deps: Seq<(i64, i64)>) -> Seq<i64> {
    kahn(base_order(ids, kinds), deps)
}

fn kind_of(kinds: &Vec<(i64, String)>, id: i64) -> (r: u8)
    ensures
        r == rank_of(kinds_view(kinds@), id),
{
    let ghost kv = kinds_view(kinds@);
    let mut i = kinds.len();
    assert(kv.take(i as int) =~= kv);
    while i > 0
        invariant
            i <= kinds@.len(),
            kv == kinds_view(kinds@),
            kind_in(kv, id) == kind_in(kv.take(i as int), id),
        decreases i,
    {
        assert(kv.take(i as int).drop_last() =~= kv.take(i - 1));
        assert(kv.take(i as int).last() == kv[i - 1]);
        if kinds[i - 1].0 == id {
            return rank(kinds[i - 1].1.as_str());
        }
        i -= 1;
    }
    assert(kv.take(0) =~= Seq::<(i64, Seq<char>)>::empty());
    proof {
        reveal_strlit("");
    }
    assert(""@ =~= Seq::<char>::empty());
    rank("")
}

fn base_order_of(ids: &Vec<i64>, kinds: &Vec<(i64, String)>) -> (r: Vec<i64>)
    ensures
        r@ == base_order(ids@, kinds_view(kinds@)),
{
    let ghost kv = kinds_view(kinds@);
    let mut out: Vec<i64> = Vec::new();
    let mut rk: u8 = 0;
    let ghost mut done: Seq<i64> = Seq::empty();
    while rk < 4
        invariant
            rk <= 4,
            kv == kinds_view(kinds@),
            out@ == (if rk == 0 {
                Seq::<i64>::empty()
            } else if rk == 1 {
                ids@.filter(|x: i64| rank_of(kv, x) == 0)
            } else if rk == 2 {
                ids@.filter(|x: i64| rank_of(kv, x) == 0) + ids@.filter(|x: i64| rank_of(kv, x) == 1)
            } else if rk == 3 {
                ids@.filter(|x: i64| rank_of(kv, x) == 0) + ids@.filter(|x: i64| rank_of(kv, x) == 1) + ids@.filter(
                    |x: i64| rank_of(kv, x) == 2,
                )
            } else {
                base_order(ids@, kv)
            }),
        decreases 4 - rk,
    {
        let ghost head = out@;
        let mut i: usize = 0;
        while i < ids.len()
            invariant
                i <= ids@.len(),
                rk < 4,
                kv == kinds_view(kinds@),
                out@ == head + ids@.take(i as int).filter(|x: i64| rank_of(kv, x) == rk),
            decreases ids@.len() - i,
        {
            proof {
                reveal(Seq::filter);
                assert(ids@.take(i + 1).drop_last() =~= ids@.take(i as int));
                assert(ids@.take(i + 1).last() == ids@[i as int]);
            }
            if kind_of(kinds, ids[i]) == rk {
                out.push(ids[i]);
            }
            i += 1;
            assert(out@ =~= head + ids@.take(i as int).filter(|x: i64| rank_of(kv, x) == rk));
        }
        assert(ids@.take(ids@.len() as int) =~= ids@);
        rk += 1;
    }
    out
}

fn contains_id(v: &Vec<i64>, x: i64) -> (r: bool)
    ensures
        r == v@.contains(x),
{
    let mut i: usize = 0;
    while i < v.len()
        invariant
            i <= v@.len(),
            forall|k: int| 0 <= k < i ==> v@[k] != x,
        decreases v@.len() - i,
    {
        if v[i] == x {
            assert(v@[i as int] == x);
            return true;
        }
        i += 1;
    }
    false
}

fn is_ready(rem: &Vec<i64>, deps: &Vec<(i64, i64)>, id: i64) -> (r: bool)
    ensures
        r == ready(rem@, deps@, id),
{
    let mut k: usize = 0;
    while k < deps.len()
        invariant
            k <= deps@.len(),
            forall|j: int| 0 <= j < k ==> !((#[trigger] deps@[j]).0 == id && rem@.contains(deps@[j].1)),
        decreases deps@.len() - k,
    {
        if deps[k].0 == id && contains_id(rem, deps[k].1) {
            assert(deps@[k as int].0 == id && rem@.contains(deps@[k as int].1));
            return false;
        }
        k += 1;
    }
    true
}

/// The order in which the selected objects are scripted: by category
/// (`kinds` holds each object's type code), then dependency first
/// (`deps` holds pairs (object, what it needs first)).
pub fn script_order(ids: &Vec<i64>, kinds: &Vec<(i64, String)>, deps: &Vec<(i64, i64)>) -> (r: Vec<i64>)
    ensures
        r@ == spec_script_order(ids@, kinds_view(kinds@), deps@),
{
    let mut remaining = base_order_of(ids, kinds);
    let ghost base = remaining@;
    let mut result: Vec<i64> = Vec::new();
    while remaining.len() > 0
        invariant
            result@ + kahn(remaining@, deps@) == kahn(base, deps@),
        decreases remaining@.len(),
    {
        let mut p: usize = 0;
        let mut found = false;
        let mut i: usize = 0;
        proof {
            lemma_first_ready(remaining@, deps@, 0);
        }
        while i < remaining.len() && !found
            invariant
                i <= remaining@.len(),
                !found ==> first_ready(remaining@, deps@, 0) == first_ready(remaining@, deps@, i as int) && p == 0,
                found ==> first_ready(remaining@, deps@, 0) == Some(p as int),
            decreases remaining@.len() - i + (if found { 0int } else { 1int }),
        {
            if is_ready(&remaining, deps, remaining[i]) {
                assert(first_ready(remaining@, deps@, i as int) == Some(i as int));
                p = i;
                found = true;
            } else {
                i += 1;
            }
        }
        assert(!found ==> first_ready(remaining@, deps@, i as int) is None);
        assert(p as int == pick(remaining@, deps@));
        proof {
            lemma_pick_in_range(remaining@, deps@);
        }
        let ghost before = remaining@;
        let x = remaining.remove(p);
        result.push(x);
        assert(kahn(before, deps@) == seq![x] + kahn(remaining@, deps@));
        assert(result@ + kahn(remaining@, deps@) =~= (result@.drop_last() + seq![x]) + kahn(remaining@, deps@));
    }
    assert(kahn(remaining@, deps@) =~= Seq::<i64>::empty());
    assert(result@ + kahn(remaining@, deps@) =~= result@);
    result
}

pub proof fn lemma_kahn_len(rem: Seq<i64>, deps: Seq<(i64, i64)>)
    ensures
        kahn(rem, deps).len() == rem.len(),
    decreases rem.len(),
{
    if rem.len() > 0 {
        let p = pick(rem, deps);
        lemma_pick_in_range(rem, deps);
        lemma_kahn_len(rem.remove(p), deps);
    }
}

pub proof fn lemma_kahn_permutation(rem: Seq<i64>, deps: Seq<(i64, i64)>)
    ensures
        kahn(rem, deps).to_multiset() == rem.to_multiset(),
    decreases rem.len(),
{
    broadcast use vstd::multiset::group_multiset_axioms;

    if rem.len() > 0 {
        let p = pick(rem, deps);
        lemma_pick_in_range(rem, deps);
        lemma_kahn_permutation(rem.remove(p), deps);
        vstd::seq_lib::lemma_multiset_commutative(seq![rem[p]], kahn(rem.remove(p), deps));
        assert(seq![rem[p]].to_multiset() =~= Multiset::empty().insert(rem[p])) by {
            assert(seq![rem[p]] =~= Seq::<i64>::empty().push(rem[p]));
        }
        assert(kahn(rem, deps).to_multiset() =~= rem.to_multiset());
    }
}

proof fn lemma_ready_same_elements(a: Seq<i64>, b: Seq<i64>, deps: Seq<(i64, i64)>, id: i64)
    requires
        a.to_multiset() == b.to_multiset(),
    ensures
        ready(a, deps, id) == ready(b, deps, id),
{
    assert forall|x: i64| a.contains(x) == b.contains(x) by {
        assert(a.contains(x) <==> a.to_multiset().count(x) > 0);
        assert(b.contains(x) <==> b.to_multiset().count(x) > 0);
    }
}

/// At each position `i` of `kahn(rem)`, the emitted object depends on
/// nothing emitted after it, unless every object from `i` on waits on
/// another one from `i` on.
proof fn lemma_kahn_order(rem: Seq<i64>, deps: Seq<(i64, i64)>, i: int)
    requires
        0 <= i < rem.len(),
    ensures
        ({
            let r = kahn(rem, deps);
            ready(r.skip(i), deps, r[i]) || forall|j: int| i <= j < r.len() ==> !ready(r.skip(i), deps, #[trigger] r[j])
        }),
    decreases rem.len(),
{
    broadcast use vstd::multiset::group_multiset_axioms;

    let r = kahn(rem, deps);
    let p = pick(rem, deps);
    lemma_pick_in_range(rem, deps);
    lemma_kahn_permutation(rem, deps);
    lemma_kahn_permutation(rem.remove(p), deps);
    lemma_kahn_len(rem, deps);
    lemma_kahn_len(rem.remove(p), deps);
    assert(r =~= seq![rem[p]] + kahn(rem.remove(p), deps));
    if i == 0 {
        assert(r.skip(0) =~= r);
        lemma_first_ready(rem, deps, 0);
        lemma_ready_same_elements(r, rem, deps, rem[p]);
        if first_ready(rem, deps, 0) is None {
            assert forall|j: int| 0 <= j < r.len() implies !ready(r.skip(0), deps, #[trigger] r[j]) by {
                assert(r.to_multiset().count(r[j]) > 0) by {
                    assert(r.contains(r[j]));
                }
                assert(rem.contains(r[j]));
                let k = choose|k: int| 0 <= k < rem.len() && rem[k] == r[j];
                assert(!ready(rem, deps, rem[k]));
                lemma_ready_same_elements(r, rem, deps, r[j]);
            }
        }
    } else {
        let t = kahn(rem.remove(p), deps);
        lemma_kahn_order(rem.remove(p), deps, i - 1);
        assert(r.skip(i) =~= t.skip(i - 1));
        assert(r[i] == t[i - 1]);
        assert forall|j: int| i <= j < r.len() implies r[j] == t[j - 1] by {}
        if !ready(t.skip(i - 1), deps, t[i - 1]) {
            assert forall|j: int| i <= j < r.len() implies !ready(r.skip(i), deps, #[trigger] r[j]) by {
                assert(r[j] == t[j - 1]);
                assert(!ready(t.skip(i - 1), deps, t[j - 1]));
            }
        }
    }
}

/// Scripting emits every selected object exactly as often as it was
/// selected.
pub proof fn lemma_script_order_is_permutation(ids: Seq<i64>, kinds: Seq<(i64, Seq<char>)>, deps: Seq<(i64, i64)>)
    ensures
        spec_script_order(ids, kinds, deps).to_multiset() == ids.to_multiset(),
{
    lemma_kahn_permutation(base_order(ids, kinds), deps);
    lemma_base_order_permutation(ids, kinds);
}

proof fn lemma_base_order_permutation(ids: Seq<i64>, kinds: Seq<(i64, Seq<char>)>)
    ensures
        base_order(ids, kinds).to_multiset() == ids.to_multiset(),
    decreases ids.len(),
{
    broadcast use vstd::multiset::group_multiset_axioms;

    let f0 = |x: i64| rank_of(kinds, x) == 0;
    let f1 = |x: i64| rank_of(kinds, x) == 1;
    let f2 = |x: i64| rank_of(kinds, x) == 2;
    let f3 = |x: i64| rank_of(kinds, x) == 3;
    if ids.len() == 0 {
        reveal(Seq::filter);
        assert(base_order(ids, kinds) =~= Seq::<i64>::empty());
    } else {
        let s = ids.drop_last();
        let x = ids.last();
        lemma_base_order_permutation(s, kinds);
        reveal(Seq::filter);
        assert(ids.filter(f0) == if f0(x) { s.filter(f0).push(x) } else { s.filter(f0) });
        assert(ids.filter(f1) == if f1(x) { s.filter(f1).push(x) } else { s.filter(f1) });
        assert(ids.filter(f2) == if f2(x) { s.filter(f2).push(x) } else { s.filter(f2) });
        assert(ids.filter(f3) == if f3(x) { s.filter(f3).push(x) } else { s.filter(f3) });
        let a = s.filter(f0);
        let b = s.filter(f1);
        let c = s.filter(f2);
        let d = s.filter(f3);
        vstd::seq_lib::lemma_multiset_commutative(a, b);
        vstd::seq_lib::lemma_multiset_commutative(a + b, c);
        vstd::seq_lib::lemma_multiset_commutative(a + b + c, d);
        assert(ids =~= s.push(x));
        if f0(x) {
            vstd::seq_lib::lemma_multiset_commutative(a.push(x), b);
            vstd::seq_lib::lemma_multiset_commutative(a.push(x) + b, c);
            vstd::seq_lib::lemma_multiset_commutative(a.push(x) + b + c, d);
        } else if f1(x) {
            vstd::seq_lib::lemma_multiset_commutative(a, b.push(x));
            vstd::seq_lib::lemma_multiset_commutative(a + b.push(x), c);
            vstd::seq_lib::lemma_multiset_commutative(a + b.push(x) + c, d);
        } else if f2(x) {
            vstd::seq_lib::lemma_multiset_commutative(a + b, c.push(x));
            vstd::seq_lib::lemma_multiset_commutative(a + b + c.push(x), d);
        } else {
            assert(f3(x));
            vstd::seq_lib::lemma_multiset_commutative(a + b + c, d.push(x));
        }
        assert(base_order(ids, kinds).to_multiset() =~= ids.to_multiset());
    }
}

/// Scripting respects dependencies: each object comes before every
/// selected object that needs it, except inside a dependency cycle, where
/// at that point every remaining object waits on another remaining one.
pub proof fn lemma_script_order_respects_dependencies(
    ids: Seq<i64>,
    kinds: Seq<(i64, Seq<char>)>,
    deps: Seq<(i64, i64)>,
    i: int,
)
    requires
        0 <= i < ids.len(),
    ensures
        ({
            let r = spec_script_order(ids, kinds, deps);
            ready(r.skip(i), deps, r[i]) || forall|j: int| i <= j < r.len() ==> !ready(r.skip(i), deps, #[trigger] r[j])
        }),
{
    lemma_base_order_permutation(ids, kinds);
    assert(base_order(ids, kinds).len() == ids.len()) by {
        assert(base_order(ids, kinds).to_multiset().len() == ids.to_multiset().len());
    }
    lemma_kahn_order(base_order(ids, kinds), deps, i);
}

/// The error when nothing was selected.
pub fn no_objects_error() -> (r: AppError)
    ensures
        is_internal_error(r, "no objects selected"@),
{
    AppError::Internal(owned("no objects selected"))
}

/// The ids as a comma-separated SQL list.
pub open spec fn spec_id_list(ids: Seq<i64>) -> Seq<char>
    decreases ids.len(),
{
    if ids.len() == 0 {
        seq![]
    } else if ids.len() == 1 {
        dec_int(ids[0] as int)
    } else {
        spec_id_list(ids.drop_last()) + seq![','] + dec_int(ids.last() as int)
    }
}

fn push_id_list(out: &mut Vec<char>, ids: &Vec<i64>)
    ensures
        final(out)@ == old(out)@ + spec_id_list(ids@),
{
    let mut i: usize = 0;
    while i < ids.len()
        invariant
            i <= ids@.len(),
            out@ == old(out)@ + spec_id_list(ids@.take(i as int)),
        decreases ids@.len() - i,
    {
        assert(ids@.take(i + 1).drop_last() =~= ids@.take(i as int));
        if i > 0 {
            out.push(',');
        }
        let d = i64_dec(ids[i]);
        extend_chars(out, d.as_slice());
        assert(i == 0 ==> ids@.take(1) =~= seq![ids@[0]]);
        assert(out@ =~= old(out)@ + spec_id_list(ids@.take(i + 1)));
        i += 1;
    }
    assert(ids@.take(ids@.len() as int) =~= ids@);
}

pub open spec fn spec_kinds_sql(database: Seq<char>, ids: Seq<i64>) -> Seq<char> {
    "SELECT CAST(o.object_id AS bigint), RTRIM(o.type)\n             FROM "@ + spec_quote_ident(database)
        + ".sys.objects o WHERE o.object_id IN ("@ + spec_id_list(ids) + ")"@
}

/// The query for the type code of each selected object.
pub fn kinds_sql(database: &str, ids: &Vec<i64>) -> (r: String)
    ensures
        r@ == spec_kinds_sql(database@, ids@),
{
    let mut v: Vec<char> = Vec::new();
    extend_str(&mut v, "SELECT CAST(o.object_id AS bigint), RTRIM(o.type)\n             FROM ");
    extend_str(&mut v, super::meta::quote_ident(database).as_str());
    extend_str(&mut v, ".sys.objects o WHERE o.object_id IN (");
    push_id_list(&mut v, ids);
    extend_str(&mut v, ")");
    string_of(v.as_slice())
}

pub open spec fn spec_deps_sql(database: Seq<char>, ids: Seq<i64>) -> Seq<char> {
    let l = spec_id_list(ids);
    "SELECT DISTINCT CAST(d.referencing_id AS bigint), CAST(d.referenced_id AS bigint)\n             FROM "@
        + spec_quote_ident(database) + ".sys.sql_expression_dependencies d\n             WHERE d.referencing_id IN ("@
        + l + ") AND d.referenced_id IN ("@ + l + ")\n               AND d.referencing_id <> d.referenced_id"@
}

/// The query for the dependencies among the selected objects.
pub fn deps_sql(database: &str, ids: &Vec<i64>) -> (r: String)
    ensures
        r@ == spec_deps_sql(database@, ids@),
{
    let mut v: Vec<char> = Vec::new();
    extend_str(&mut v, "SELECT DISTINCT CAST(d.referencing_id AS bigint), CAST(d.referenced_id AS bigint)\n             FROM ");
    extend_str(&mut v, super::meta::quote_ident(database).as_str());
    extend_str(&mut v, ".sys.sql_expression_dependencies d\n             WHERE d.referencing_id IN (");
    push_id_list(&mut v, ids);
    extend_str(&mut v, ") AND d.referenced_id IN (");
    push_id_list(&mut v, ids);
    extend_str(&mut v, ")\n               AND d.referencing_id <> d.referenced_id");
    string_of(v.as_slice())
}

/// An `i64` cell.
pub open spec fn id_cell(c: Seq<char>) -> Option<i64> {
    match int_text_value(c) {
        Some(v) => if i64::MIN <= v <= i64::MAX {
            Some(v as i64)
        } else {
            None
        },
        None => None,
    }
}

/// A type-code row read as (id, type); it needs an id and a type cell.
pub open spec fn kind_of_row(r: Seq<Seq<char>>) -> Option<(i64, Seq<char>)> {
    if r.len() >= 2 {
        match id_cell(r[0]) {
            Some(id) => Some((id, r[1])),
            None => None,
        }
    } else {
        None
    }
}

/// A dependency row read as (object, what it needs first).
pub open spec fn dep_of_row(r: Seq<Seq<char>>) -> Option<(i64, i64)> {
    if r.len() >= 2 {
        match (id_cell(r[0]), id_cell(r[1])) {
            (Some(a), Some(b)) => Some((a, b)),
            _ => None,
        }
    } else {
        None
    }
}

pub fn kinds_from_rows(rows: &Vec<Vec<String>>) -> (r: Vec<(i64, String)>)
    ensures
        kinds_view(r@) == table_view(rows@).filter_map(|x: Seq<Seq<char>>| kind_of_row(x)),
{
    let ghost tv = table_view(rows@);
    let mut out: Vec<(i64, String)> = Vec::new();
    let mut i: usize = 0;
    while i < rows.len()
        invariant
            i <= rows@.len(),
            tv == table_view(rows@),
            kinds_view(out@) == tv.take(i as int).filter_map(|x: Seq<Seq<char>>| kind_of_row(x)),
        decreases rows@.len() - i,
    {
        assert(tv.take(i + 1).drop_last() =~= tv.take(i as int));
        assert(tv.take(i + 1).last() == rows@[i as int]@.map_values(|c: String| c@));
        let row = &rows[i];
        let ghost before = kinds_view(out@);
        if row.len() >= 2 {
            match parse_i64(row[0].as_str()) {
                Some(id) => {
                    out.push((id, owned(row[1].as_str())));
                    assert(kinds_view(out@) =~= before + seq![(id, row@[1]@)]);
                },
                None => {},
            }
        }
        i += 1;
    }
    assert(tv.take(rows@.len() as int) =~= tv);
    out
}

pub fn deps_from_rows(rows: &Vec<Vec<String>>) -> (r: Vec<(i64, i64)>)
    ensures
        r@ == table_view(rows@).filter_map(|x: Seq<Seq<char>>| dep_of_row(x)),
{
    let ghost tv = table_view(rows@);
    let mut out: Vec<(i64, i64)> = Vec::new();
    let mut i: usize = 0;
    while i < rows.len()
        invariant
            i <= rows@.len(),
            tv == table_view(rows@),
            out@ == tv.take(i as int).filter_map(|x: Seq<Seq<char>>| dep_of_row(x)),
        decreases rows@.len() - i,
    {
        assert(tv.take(i + 1).drop_last() =~= tv.take(i as int));
        assert(tv.take(i + 1).last() == rows@[i as int]@.map_values(|c: String| c@));
        let row = &rows[i];
        let ghost before = out@;
        if row.len() >= 2 {
            match (parse_i64(row[0].as_str()), parse_i64(row[1].as_str())) {
                (Some(a), Some(b)) => {
                    out.push((a, b));
                    assert(out@ =~= before + seq![(a, b)]);
                },
                _ => {},
            }
        }
        i += 1;
    }
    assert(tv.take(rows@.len() as int) =~= tv);
    out
}

/// The file header: provenance with the date and the database name, the
/// session options modules are scripted under, and `USE [db]` when asked.
pub open spec fn spec_script_header(database: Seq<char>, date: Seq<char>, include_use: bool) -> Seq<char> {
    "-- Generated by Bakehouse on "@ + date + " from database ["@ + database
        + "]\nSET ANSI_NULLS ON\nGO\nSET QUOTED_IDENTIFIER ON\nGO\n"@ + if include_use {
        "USE "@ + spec_quote_ident(database) + "\nGO\n"@
    } else {
        Seq::<char>::empty()
    }
}

pub fn script_header_at(database: &str, date: &str, include_use: bool) -> (r: String)
    ensures
        r@ == spec_script_header(database@, date@, include_use),
{
    let mut v: Vec<char> = Vec::new();
    extend_str(&mut v, "-- Generated by Bakehouse on ");
    extend_str(&mut v, date);
    extend_str(&mut v, " from database [");
    extend_str(&mut v, database);
    extend_str(&mut v, "]\nSET ANSI_NULLS ON\nGO\nSET QUOTED_IDENTIFIER ON\nGO\n");
    if include_use {
        extend_str(&mut v, "USE ");
        extend_str(&mut v, super::meta::quote_ident(database).as_str());
        extend_str(&mut v, "\nGO\n");
    }
    string_of(v.as_slice())
}

/// `chrono::Utc::now()` formatted as `%Y-%m-%d %H:%M UTC`. Which time it
/// is depends on the clock; only the shape of the text is stated.
#[verifier::external_body]
fn utc_now_minutes() -> (r: String)
    ensures
        crate::text::is_utc_minutes(r@),
{
    chrono::Utc::now().format("%Y-%m-%d %H:%M UTC").to_string()
}

/// The header, dated now.
pub fn script_header(database: &str, include_use: bool) -> (r: String)
    ensures
        exists|date: Seq<char>| crate::text::is_utc_minutes(date) && r@ == #[trigger] spec_script_header(database@, date, include_use),
{
    let date = utc_now_minutes();
    script_header_at(database, date.as_str(), include_use)
}

/// The `DROP` keyword for an object type code.
pub open spec fn spec_drop_keyword(t: Seq<char>) -> Seq<char> {
    if t == "U"@ {
        "TABLE"@
    } else if t == "V"@ {
        "VIEW"@
    } else if t == "P"@ {
        "PROCEDURE"@
    } else if t == "FN"@ || t == "IF"@ || t == "TF"@ {
        "FUNCTION"@
    } else {
        "OBJECT"@
    }
}

/// A type code as it is listed, quoted, in an object query.
pub open spec fn quoted_code(t: Seq<char>) -> Seq<char> {
    seq!['\''] + t + seq!['\'']
}

proof fn lemma_quoted_single(t: Seq<char>, c: char)
    ensures
        quoted_code(t) == seq!['\'', c, '\''] <==> t == seq![c],
{
    if quoted_code(t) == seq!['\'', c, '\''] {
        assert(quoted_code(t).len() == 3);
        assert(quoted_code(t)[1] == t[0]);
        assert(t =~= seq![c]);
    }
    if t == seq![c] {
        assert(quoted_code(t) =~= seq!['\'', c, '\'']);
    }
}

/// The `DROP` keyword names the object's own class: `TABLE` exactly for the
/// code the object tree lists as tables, `VIEW` for the one it lists as
/// views, `PROCEDURE` for the one it lists as procedures, and `FUNCTION`
/// exactly for the codes the script order ranks as functions; every other
/// code gets the generic `OBJECT`. So objects of different classes never
/// get the same keyword.
pub proof fn lemma_drop_keyword_names_class(t: Seq<char>)
    ensures
        (spec_drop_keyword(t) == "TABLE"@) <==> quoted_code(t) == spec_type_filter("table"@),
        (spec_drop_keyword(t) == "VIEW"@) <==> quoted_code(t) == spec_type_filter("view"@),
        (spec_drop_keyword(t) == "PROCEDURE"@) <==> quoted_code(t) == spec_type_filter("proc"@),
        (spec_drop_keyword(t) == "FUNCTION"@) <==> spec_rank(t) == 1,
        (spec_drop_keyword(t) == "OBJECT"@) <==> !(t == "U"@ || t == "V"@ || t == "P"@ || spec_rank(t) == 1),
{
    reveal_strlit("TABLE");
    reveal_strlit("VIEW");
    reveal_strlit("PROCEDURE");
    reveal_strlit("FUNCTION");
    reveal_strlit("OBJECT");
    reveal_strlit("U");
    reveal_strlit("V");
    reveal_strlit("P");
    reveal_strlit("FN");
    reveal_strlit("IF");
    reveal_strlit("TF");
    reveal_strlit("'U'");
    reveal_strlit("'V'");
    reveal_strlit("'P'");
    reveal_strlit("table");
    reveal_strlit("view");
    reveal_strlit("proc");
    assert(spec_type_filter("table"@) == "'U'"@);
    assert("view"@ != "table"@) by { assert("view"@[0] != "table"@[0]); }
    assert(spec_type_filter("view"@) == "'V'"@);
    assert("proc"@ != "table"@ && "proc"@ != "view"@) by { assert("proc"@[0] == 'p'); }
    assert(spec_type_filter("proc"@) == "'P'"@);
    assert("'U'"@ =~= seq!['\'', 'U', '\'']);
    assert("'V'"@ =~= seq!['\'', 'V', '\'']);
    assert("'P'"@ =~= seq!['\'', 'P', '\'']);
    assert("U"@ =~= seq!['U']);
    assert("V"@ =~= seq!['V']);
    assert("P"@ =~= seq!['P']);
    lemma_quoted_single(t, 'U');
    lemma_quoted_single(t, 'V');
    lemma_quoted_single(t, 'P');
    // the keywords differ from one another
    assert("TABLE"@ != "VIEW"@ && "TABLE"@ != "PROCEDURE"@ && "TABLE"@ != "FUNCTION"@ && "TABLE"@ != "OBJECT"@) by {
        assert("TABLE"@[0] == 'T');
    }
    assert("VIEW"@ != "PROCEDURE"@ && "VIEW"@ != "FUNCTION"@ && "VIEW"@ != "OBJECT"@) by {
        assert("VIEW"@[0] == 'V');
    }
    assert("PROCEDURE"@ != "FUNCTION"@ && "PROCEDURE"@ != "OBJECT"@) by {
        assert("PROCEDURE"@[0] == 'P');
    }
    assert("FUNCTION"@ != "OBJECT"@) by {
        assert("FUNCTION"@[0] == 'F');
    }
    // the function codes are not the single-letter ones
    assert("FN"@.len() == 2 && "IF"@.len() == 2 && "TF"@.len() == 2);
}

pub fn drop_keyword(t: &str) -> (r: &'static str)
    ensures
        r@ == spec_drop_keyword(t@),
{
    if str_eq(t, "U") {
        "TABLE"
    } else if str_eq(t, "V") {
        "VIEW"
    } else if str_eq(t, "P") {
        "PROCEDURE"
    } else if str_eq(t, "FN") || str_eq(t, "IF") || str_eq(t, "TF") {
        "FUNCTION"
    } else {
        "OBJECT"
    }
}

/// One object's part of the file: a blank line, optionally a guarded
/// `DROP`, then its script without trailing whitespace and `GO`.
pub open spec fn spec_section(object_type: Seq<char>, schema: Seq<char>, name: Seq<char>, body: Seq<char>, include_drop: bool) -> Seq<char> {
    seq!['\n'] + (if include_drop {
        "DROP "@ + spec_drop_keyword(object_type) + " IF EXISTS "@ + spec_quote_ident(schema) + seq!['.']
            + spec_quote_ident(name) + "\nGO\n"@
    } else {
        Seq::<char>::empty()
    }) + rtrim(body) + "\nGO\n"@
}

/// Appends an object's part to the file.
pub fn append_section(out: &mut String, obj: &ScriptedObject, include_drop: bool)
    ensures
        final(out)@ == old(out)@ + spec_section(obj.object_type@, obj.schema@, obj.name@, obj.body@, include_drop),
{
    let mut v: Vec<char> = crate::text::chars_of(out.as_str());
    v.push('\n');
    if include_drop {
        extend_str(&mut v, "DROP ");
        extend_str(&mut v, drop_keyword(obj.object_type.as_str()));
        extend_str(&mut v, " IF EXISTS ");
        extend_str(&mut v, super::meta::quote_ident(obj.schema.as_str()).as_str());
        v.push('.');
        extend_str(&mut v, super::meta::quote_ident(obj.name.as_str()).as_str());
        extend_str(&mut v, "\nGO\n");
    }
    push_trim_end(&mut v, obj.body.as_str());
    extend_str(&mut v, "\nGO\n");
    assert(v@ =~= old(out)@ + spec_section(obj.object_type@, obj.schema@, obj.name@, obj.body@, include_drop));
    *out = string_of(v.as_slice());
}

} // verus!
