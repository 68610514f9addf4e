//! What the container CLI's JSON reports (`list`, `image list`, `inspect`)
//! say about containers and images.

use super::apple::{before_char, image_listed, state_from_status, strs};
use super::{ContainerState, ContainerStateSpec, ManagedContainer, MANAGED_LABEL};
use crate::error::{is_internal_error, AppError};
use crate::text::{concat, owned};
use vstd::prelude::*;

verus! {

/// The strings that `serde_json` finds in the JSON document `text`: one row
/// per element of its top-level array (no rows when it is not an array),
/// holding for each JSON pointer of `pointers` the string there, if any; or
/// the parser's error message.
pub uninterp spec fn json_array_strings(text: Seq<char>, pointers: Seq<Seq<char>>) -> Result<Seq<Seq<Option<Seq<char>>>>, Seq<char>>;

pub open spec fn opt_view(o: Option<String>) -> Option<Seq<char>> {
    match o {
        Some(s) => Some(s@),
        None => None,
    }
}

pub open spec fn rows_view(rows: Seq<Vec<Option<String>>>) -> Seq<Seq<Option<Seq<char>>>> {
    rows.map_values(|row: Vec<Option<String>>| row@.map_values(|o: Option<String>| opt_view(o)))
}

pub open spec fn strings_view(r: Result<Vec<Vec<Option<String>>>, String>) -> Result<Seq<Seq<Option<Seq<char>>>>, Seq<char>> {
    match r {
        Ok(rows) => Ok(rows_view(rows@)),
        Err(m) => Err(m@),
    }
}

/// Parses `text` with `serde_json::from_str` into a `Value` and reads, for
/// each element of its top-level array, the string at each pointer with
/// `Value::pointer` and `Value::as_str`: one entry per pointer, in order.
#[verifier::external_body]
fn read_json_strings(text: &str, pointers: &Vec<String>) -> (r: Result<Vec<Vec<Option<String>>>, String>)
    ensures
        json_array_strings(text@, strs(pointers@)) == strings_view(r),
{
    let v: serde_json::Value = serde_json::from_str(text).map_err(|e| e.to_string())?;
    let items: Vec<serde_json::Value> = v.as_array().cloned().unwrap_or_default();
    let mut rows = Vec::new();
    for item in items.iter() {
        rows.push(pointers.iter().map(|p| item.pointer(p).and_then(|x| x.as_str()).map(str::to_string)).collect());
    }
    Ok(rows)
}

pub open spec fn or_empty(o: Option<Seq<char>>) -> Seq<char> {
    match o {
        Some(s) => s,
        None => Seq::<char>::empty(),
    }
}

/// The state a report gives by its `status.state` and first network's
/// `ipv4Address` strings (see `state_from_status`).
pub open spec fn status_state(state: Option<Seq<char>>, cidr: Option<Seq<char>>) -> ContainerStateSpec {
    match state {
        Some(s) => if s == "running"@ {
            ContainerStateSpec::Running { ip: before_char(or_empty(cidr), '/') }
        } else {
            ContainerStateSpec::Stopped
        },
        None => ContainerStateSpec::Stopped,
    }
}

fn json_error(head: &str, message: &str) -> (r: AppError)
    ensures
        is_internal_error(r, head@ + message@),
{
    AppError::Internal(concat(head, message))
}

/// The `k`-th string of a report row (none when the row is shorter).
pub open spec fn field(row: Seq<Option<Seq<char>>>, k: int) -> Option<Seq<char>> {
    if 0 <= k < row.len() {
        row[k]
    } else {
        None
    }
}

fn field_at(row: &Vec<Option<String>>, k: usize) -> (r: Option<&str>)
    ensures
        match field(row@.map_values(|o: Option<String>| opt_view(o)), k as int) {
            Some(s) => r matches Some(x) && x@ == s,
            None => r is None,
        },
{
    if k < row.len() {
        match &row[k] {
            Some(s) => Some(s.as_str()),
            None => None,
        }
    } else {
        None
    }
}

/// The pointers read from each entry of `container list --all`: its id,
/// our management label, its state and its first network's address.
pub open spec fn list_pointers() -> Seq<Seq<char>> {
    seq![
        "/configuration/id"@,
        "/configuration/labels/"@ + MANAGED_LABEL@,
        "/status/state"@,
        "/status/networks/0/ipv4Address"@,
    ]
}

/// An entry of the list is ours when our label on it reads `true`.
pub open spec fn row_is_managed(row: Seq<Option<Seq<char>>>) -> bool {
    field(row, 1) == Some("true"@)
}

pub open spec fn managed_rows(rows: Seq<Seq<Option<Seq<char>>>>) -> Seq<Seq<Option<Seq<char>>>> {
    rows.filter(|row: Seq<Option<Seq<char>>>| row_is_managed(row))
}

fn list_pointer_strings() -> (r: Vec<String>)
    ensures
        strs(r@) == list_pointers(),
{
    let mut r: Vec<String> = Vec::new();
    r.push(owned("/configuration/id"));
    r.push(concat("/configuration/labels/", MANAGED_LABEL));
    r.push(owned("/status/state"));
    r.push(owned("/status/networks/0/ipv4Address"));
    assert(strs(r@) =~= list_pointers());
    r
}

fn state_of_fields(row: &Vec<Option<String>>) -> (r: ContainerState)
    ensures
        ({
            let v = row@.map_values(|o: Option<String>| opt_view(o));
            r@ == status_state(field(v, 2), field(v, 3))
        }),
{
    let r = state_from_status(field_at(row, 2), field_at(row, 3));
    proof {
        assert(before_char(Seq::<char>::empty(), '/') =~= Seq::<char>::empty());
    }
    r
}

/// The containers among the entries of `container list --all` (id, our
/// label, state, address) that are ours, in list order: each with its id
/// (empty when missing) and state.
pub fn managed_from_rows(rows: &Vec<Vec<Option<String>>>) -> (r: Vec<ManagedContainer>)
    ensures
        r@.len() == managed_rows(rows_view(rows@)).len(),
        forall|i: int| #![trigger r@[i]] 0 <= i < r@.len() ==> {
            let row = managed_rows(rows_view(rows@))[i];
            &&& r@[i].name@ == or_empty(field(row, 0))
            &&& r@[i].state@ == status_state(field(row, 2), field(row, 3))
        },
{
    let ghost all = rows_view(rows@);
    let mut out: Vec<ManagedContainer> = Vec::new();
    let mut i: usize = 0;
    while i < rows.len()
        invariant
            i <= rows@.len(),
            all == rows_view(rows@),
            out@.len() == managed_rows(all.take(i as int)).len(),
            forall|k: int| #![trigger out@[k]] 0 <= k < out@.len() ==> {
                let row = managed_rows(all.take(i as int))[k];
                &&& out@[k].name@ == or_empty(field(row, 0))
                &&& out@[k].state@ == status_state(field(row, 2), field(row, 3))
            },
        decreases rows@.len() - i,
    {
        let row = &rows[i];
        proof {
            reveal(Seq::filter);
            assert(all.take(i + 1).drop_last() =~= all.take(i as int));
            assert(all.take(i + 1).last() == all[i as int]);
            assert(all[i as int] == row@.map_values(|o: Option<String>| opt_view(o)));
        }
        let keep = match field_at(row, 1) {
            Some(l) => crate::text::str_eq(l, "true"),
            None => false,
        };
        proof {
            assert(keep == row_is_managed(all[i as int]));
        }
        if keep {
            let name = match field_at(row, 0) {
                Some(x) => owned(x),
                None => String::new(),
            };
            let state = state_of_fields(row);
            out.push(ManagedContainer { name, state });
        }
        i += 1;
    }
    proof {
        assert(all.take(rows@.len() as int) =~= all);
    }
    out
}

/// The containers that `container list --all --format json` reports as
/// ours; see [`managed_from_rows`].
pub fn managed_from_list_json(json: &str) -> (r: Result<Vec<ManagedContainer>, AppError>)
    ensures
        match json_array_strings(json@, list_pointers()) {
            Err(m) => r matches Err(e) && is_internal_error(e, "bad list JSON: "@ + m),
            Ok(rows) => r matches Ok(v) && v@.len() == managed_rows(rows).len()
                && forall|i: int| #![trigger v@[i]] 0 <= i < v@.len() ==> {
                    let row = managed_rows(rows)[i];
                    &&& v@[i].name@ == or_empty(field(row, 0))
                    &&& v@[i].state@ == status_state(field(row, 2), field(row, 3))
                },
        },
{
    let pointers = list_pointer_strings();
    match read_json_strings(json, &pointers) {
        Ok(rows) => Ok(managed_from_rows(&rows)),
        Err(m) => Err(json_error("bad list JSON: ", m.as_str())),
    }
}

/// The pointer read from each entry of `container image list`: its name.
pub open spec fn image_pointers() -> Seq<Seq<char>> {
    seq!["/configuration/name"@]
}

/// Some row names `image`, by its full reference or by its repository:tag
/// part (a missing name reads as empty).
pub open spec fn image_in_rows(rows: Seq<Seq<Option<Seq<char>>>>, image: Seq<char>) -> bool {
    exists|i: int| 0 <= i < rows.len() && (or_empty(field(#[trigger] rows[i], 0)) == image || or_empty(field(rows[i], 0)) == before_char(image, '@'))
}

/// Whether the entries of `container image list` (their names) list
/// `image`; see [`image_in_rows`].
pub fn image_in_listed(rows: &Vec<Vec<Option<String>>>, image: &str) -> (r: bool)
    ensures
        r == image_in_rows(rows_view(rows@), image@),
{
    let ghost all = rows_view(rows@);
    let mut names: Vec<String> = Vec::new();
    let mut i: usize = 0;
    while i < rows.len()
        invariant
            i <= rows@.len(),
            all == rows_view(rows@),
            names@.len() == i,
            forall|k: int| 0 <= k < i ==> (#[trigger] names@[k])@ == or_empty(field(all[k], 0)),
        decreases rows@.len() - i,
    {
        proof {
            assert(all[i as int] == rows@[i as int]@.map_values(|o: Option<String>| opt_view(o)));
        }
        let name = match field_at(&rows[i], 0) {
            Some(x) => owned(x),
            None => String::new(),
        };
        names.push(name);
        i += 1;
    }
    let found = image_listed(&names, image);
    proof {
        assert(all.len() == names@.len());
        if found {
            let k = choose|k: int| 0 <= k < names@.len() && ((#[trigger] names@[k])@ == image@ || names@[k]@ == before_char(image@, '@'));
            assert(or_empty(field(all[k], 0)) == names@[k]@);
            assert(image_in_rows(all, image@));
        } else {
            assert forall|k: int| 0 <= k < all.len() implies !(or_empty(field(#[trigger] all[k], 0)) == image@ || or_empty(field(all[k], 0)) == before_char(image@, '@')) by {
                assert(names@[k]@ == or_empty(field(all[k], 0)));
            }
            assert(!image_in_rows(all, image@));
        }
    }
    found
}

/// Whether `container image list --format json` lists `image`; see
/// [`image_in_listed`].
pub fn image_present_in_json(json: &str, image: &str) -> (r: Result<bool, AppError>)
    ensures
        match json_array_strings(json@, image_pointers()) {
            Err(m) => r matches Err(e) && is_internal_error(e, "bad image list JSON: "@ + m),
            Ok(rows) => r matches Ok(b) && b == image_in_rows(rows, image@),
        },
{
    let mut pointers: Vec<String> = Vec::new();
    pointers.push(owned("/configuration/name"));
    assert(strs(pointers@) =~= image_pointers());
    match read_json_strings(json, &pointers) {
        Ok(rows) => Ok(image_in_listed(&rows, image)),
        Err(m) => Err(json_error("bad image list JSON: ", m.as_str())),
    }
}

/// The pointers read from the entry of `container inspect`: its state and
/// its first network's address.
pub open spec fn inspect_pointers() -> Seq<Seq<char>> {
    seq!["/status/state"@, "/status/networks/0/ipv4Address"@]
}

pub open spec fn inspected_state(rows: Seq<Seq<Option<Seq<char>>>>) -> ContainerStateSpec {
    if rows.len() == 0 {
        ContainerStateSpec::NotFound
    } else {
        status_state(field(rows[0], 0), field(rows[0], 1))
    }
}

/// The state given by the entries of `container inspect` (state, address):
/// that of the first entry, or not found when there is none.
pub fn state_from_inspected(rows: &Vec<Vec<Option<String>>>) -> (r: ContainerState)
    ensures
        r@ == inspected_state(rows_view(rows@)),
{
    if rows.len() == 0 {
        return ContainerState::NotFound;
    }
    proof {
        assert(rows_view(rows@)[0] == rows@[0]@.map_values(|o: Option<String>| opt_view(o)));
        assert(before_char(Seq::<char>::empty(), '/') =~= Seq::<char>::empty());
    }
    state_from_status(field_at(&rows[0], 0), field_at(&rows[0], 1))
}

/// The state that `container inspect` reports; see [`state_from_inspected`].
pub fn state_from_inspect_json(json: &str) -> (r: Result<ContainerState, AppError>)
    ensures
        match json_array_strings(json@, inspect_pointers()) {
            Err(m) => r matches Err(e) && is_internal_error(e, "bad inspect JSON: "@ + m),
            Ok(rows) => r matches Ok(s) && s@ == inspected_state(rows),
        },
{
    let mut pointers: Vec<String> = Vec::new();
    pointers.push(owned("/status/state"));
    pointers.push(owned("/status/networks/0/ipv4Address"));
    assert(strs(pointers@) =~= inspect_pointers());
    match read_json_strings(json, &pointers) {
        Ok(rows) => Ok(state_from_inspected(&rows)),
        Err(m) => Err(json_error("bad inspect JSON: ", m.as_str())),
    }
}

} // verus!
