//! The record model and the CRUD operations over the decrypted stream.
//!
//! The decrypted vault plaintext is an ordered stream of records, each
//! exactly four consecutive lines: the literal marker line `resource`,
//! then name, user and password. The empty stream is the empty text.
//! `parse_stream` is the mathematical reading of a line sequence; every
//! operation below is specified against it. A stream in which a marker
//! line is not followed by three complete non-marker lines is malformed,
//! and the operations reject it rather than guess.

use crate::errors::VaultError;
use crate::lines::contains_newline;
use crate::lines::join_lines;
use crate::lines::lemma_line_split_of_unsplit;
use crate::lines::line_split;
use crate::lines::no_newline;
use crate::lines::split_lines;
use crate::lines::trim;
use crate::lines::trim_spec;
use crate::lines::lemma_trim_idempotent;
use crate::lines::unsplit;
use crate::lines::eq_str;
use vstd::prelude::*;

verus! {

/// The literal line that opens every record block.
pub open spec fn marker() -> Seq<char> {
    "resource"@
}

/// The second reserved token; a historical field prefix that a record
/// name may not take either.
pub open spec fn reserved_nonce() -> Seq<char> {
    "nonce"@
}

/// The reserved tokens that no resource name may equal.
pub open spec fn is_reserved_spec(s: Seq<char>) -> bool {
    s == marker() || s == reserved_nonce()
}

/// The mathematical content of one stored record.
#[verifier::ext_equal]
pub ghost struct RecordView {
    pub name: Seq<char>,
    pub user: Seq<char>,
    pub password: Seq<char>,
}

/// A credential record: the unit the vault stores.
#[derive(Debug)]
pub struct Instance {
    pub name: String,
    pub user: String,
    pub password: String,
}

impl View for Instance {
    type V = RecordView;

    open spec fn view(&self) -> RecordView {
        RecordView { name: self.name@, user: self.user@, password: self.password@ }
    }
}

impl DeepView for Instance {
    type V = RecordView;

    open spec fn deep_view(&self) -> RecordView {
        self.view()
    }
}

/// The field of a record that an update replaces.
#[derive(Clone, Copy, Debug)]
pub enum Key {
    Name,
    User,
    Password,
}

/// What an update call carries: which field of which record changes,
/// the new value, and the decrypted stream it applies to.
pub struct UpdateInput {
    pub key: Key,
    pub val: String,
    pub name: String,
    pub content: String,
}

/// The four lines under which a record stands in the stream.
pub open spec fn block_of(r: RecordView) -> Seq<Seq<char>> {
    seq![marker(), r.name, r.user, r.password]
}

/// A line that may stand as a record field: it breaks no line and does
/// not open a block of its own.
pub open spec fn valid_field(s: Seq<char>) -> bool {
    no_newline(s) && s != marker()
}

/// A stored name additionally avoids the second reserved token.
pub open spec fn valid_name(s: Seq<char>) -> bool {
    valid_field(s) && s != reserved_nonce()
}

/// Reads a line stream as a sequence of records: each block is the
/// marker line and the three field lines after it. `None` is a malformed
/// stream: a line outside any block, or a final marker with fewer than
/// three lines behind it, or a marker standing where a field belongs.
pub open spec fn parse_stream(ls: Seq<Seq<char>>) -> Option<Seq<RecordView>>
    decreases ls.len(),
{
    if ls.len() == 0 {
        Some(Seq::empty())
    } else if ls[0] == marker() && ls.len() >= 4 && ls[1] != marker() && ls[2] != marker()
        && ls[3] != marker() {
        match parse_stream(ls.skip(4)) {
            None => None,
            Some(r) => Some(seq![RecordView { name: ls[1], user: ls[2], password: ls[3] }] + r),
        }
    } else {
        None
    }
}

/// The records of a plaintext, read through its lines.
pub open spec fn records_of(content: Seq<char>) -> Option<Seq<RecordView>> {
    parse_stream(line_split(content))
}

/// The position of the first record named `name`, scanning from `i`.
pub open spec fn find_from(recs: Seq<RecordView>, name: Seq<char>, i: int) -> Option<int>
    decreases recs.len() - i,
{
    if i < 0 || i >= recs.len() {
        None
    } else if recs[i].name == name {
        Some(i)
    } else {
        find_from(recs, name, i + 1)
    }
}

impl Instance {
    /// The serialized four-line block of this record, each line closed
    /// by a line break.
    pub fn to_string(&self) -> (r: String)
        ensures
            r@ == unsplit(block_of(self@)),
    {
        let mut v: Vec<String> = Vec::new();
        v.push(String::from_str("resource"));
        v.push(self.name.clone());
        v.push(self.user.clone());
        v.push(self.password.clone());
        let r = join_lines(&v);
        proof {
            assert(v.deep_view() =~~= block_of(self@));
        }
        r
    }
}

/// Reads the whole decrypted plaintext into records, in stream order.
pub fn parse_all(content: &str) -> (r: Result<Vec<Instance>, VaultError>)
    ensures
        match r {
            Ok(v) => records_of(content@) == Some(v.deep_view()),
            Err(e) => e == VaultError::MalformedRecord && records_of(content@) is None,
        },
{
    let lines = split_lines(content);
    let ghost ls = lines.deep_view();
    let n = lines.len();
    let marker_line = String::from_str("resource");
    let mut recs: Vec<Instance> = Vec::new();
    let mut i: usize = 0;
    proof {
        assert(ls.skip(0) =~= ls);
        assert(recs.deep_view() =~~= Seq::<RecordView>::empty());
    }
    while i < n
        invariant
            0 <= i <= n,
            n == ls.len(),
            ls == lines.deep_view(),
            ls == line_split(content@),
            marker_line@ == marker(),
            parse_stream(ls) == match parse_stream(ls.skip(i as int)) {
                None => None::<Seq<RecordView>>,
                Some(r) => Some(recs.deep_view() + r),
            },
        decreases n - i,
    {
        let ghost lsi = ls.skip(i as int);
        proof {
            assert(lsi.len() == ls.len() - i);
            assert(forall|m: int| 0 <= m < lsi.len() ==> lsi[m] == ls[i + m]);
        }
        if !(lines[i] == marker_line) {
            proof {
                assert(parse_stream(lsi) is None);
            }
            return Err(VaultError::MalformedRecord);
        }
        if n - i < 4 {
            proof {
                assert(parse_stream(lsi) is None);
            }
            return Err(VaultError::MalformedRecord);
        }
        if lines[i + 1] == marker_line || lines[i + 2] == marker_line || lines[i + 3]
            == marker_line {
            proof {
                assert(parse_stream(lsi) is None);
            }
            return Err(VaultError::MalformedRecord);
        }
        let inst = Instance {
            name: lines[i + 1].clone(),
            user: lines[i + 2].clone(),
            password: lines[i + 3].clone(),
        };
        let ghost prev = recs.deep_view();
        proof {
            assert(lsi[0] == ls[i as int]);
            assert(lsi[1] == ls[i as int + 1]);
            assert(lsi[2] == ls[i as int + 2]);
            assert(lsi[3] == ls[i as int + 3]);
            assert(lsi.skip(4) =~= ls.skip(i as int + 4));
            assert(inst.deep_view() =~~= (RecordView {
                name: lsi[1],
                user: lsi[2],
                password: lsi[3],
            }));
        }
        recs.push(inst);
        proof {
            assert(recs.deep_view() =~~= prev.push(inst.deep_view()));
            match parse_stream(ls.skip(i as int + 4)) {
                Some(rest) => {
                    assert(parse_stream(lsi) == Some(seq![inst.deep_view()] + rest));
                    assert(prev + (seq![inst.deep_view()] + rest) =~~= prev.push(inst.deep_view())
                        + rest);
                },
                None => {},
            }
        }
        i = i + 4;
    }
    proof {
        assert(ls.skip(n as int) =~= Seq::<Seq<char>>::empty());
        assert(recs.deep_view() + Seq::<RecordView>::empty() =~~= recs.deep_view());
    }
    Ok(recs)
}

/// Returns the first (and, under the uniqueness the vault enforces, the
/// only) record whose name equals `name` exactly.
pub fn get(name: &str, content: &str) -> (r: Result<Instance, VaultError>)
    ensures
        match r {
            Ok(inst) => records_of(content@) matches Some(recs) && find_from(recs, name@, 0)
                matches Some(k) && inst@ == recs[k],
            Err(e) => match records_of(content@) {
                None => e == VaultError::MalformedRecord,
                Some(recs) => e == VaultError::NotFound && find_from(recs, name@, 0) is None,
            },
        },
{
    let recs = match parse_all(content) {
        Ok(v) => v,
        Err(e) => {
            return Err(e);
        },
    };
    let ghost dv = recs.deep_view();
    let n = recs.len();
    let mut j: usize = 0;
    while j < n
        invariant
            0 <= j <= n,
            n == dv.len(),
            dv == recs.deep_view(),
            records_of(content@) == Some(dv),
            find_from(dv, name@, 0) == find_from(dv, name@, j as int),
        decreases n - j,
    {
        proof {
            assert(dv[j as int] =~~= recs@[j as int]@);
        }
        if eq_str(recs[j].name.as_str(), name) {
            let found = Instance {
                name: recs[j].name.clone(),
                user: recs[j].user.clone(),
                password: recs[j].password.clone(),
            };
            proof {
                assert(dv[j as int].name == name@);
                assert(find_from(dv, name@, j as int) == Some(j as int));
                assert(found@ =~~= dv[j as int]);
            }
            return Ok(found);
        }
        j = j + 1;
    }
    Err(VaultError::NotFound)
}

/// The names of all records, in stream order. The vault's list view.
pub fn list(content: &str) -> (r: Result<Vec<String>, VaultError>)
    ensures
        match r {
            Ok(v) => records_of(content@) matches Some(recs) && v.deep_view() == recs.map_values(
                |rec: RecordView| rec.name,
            ),
            Err(e) => e == VaultError::MalformedRecord && records_of(content@) is None,
        },
{
    let recs = match parse_all(content) {
        Ok(v) => v,
        Err(e) => {
            return Err(e);
        },
    };
    let ghost dv = recs.deep_view();
    let mut names: Vec<String> = Vec::new();
    let n = recs.len();
    let mut j: usize = 0;
    while j < n
        invariant
            0 <= j <= n,
            n == dv.len(),
            dv == recs.deep_view(),
            records_of(content@) == Some(dv),
            names.deep_view() =~~= dv.take(j as int).map_values(|rec: RecordView| rec.name),
        decreases n - j,
    {
        let ghost prev = names.deep_view();
        names.push(recs[j].name.clone());
        proof {
            assert(names.deep_view() =~~= prev.push(dv[j as int].name));
            assert(dv.take(j as int + 1).map_values(|rec: RecordView| rec.name) =~~= dv.take(
                j as int,
            ).map_values(|rec: RecordView| rec.name).push(dv[j as int].name));
        }
        j = j + 1;
    }
    proof {
        assert(dv.take(n as int) =~= dv);
    }
    Ok(names)
}

/// The line index, within a block, of each updatable field.
pub open spec fn field_offset(k: Key) -> int {
    match k {
        Key::Name => 1,
        Key::User => 2,
        Key::Password => 3,
    }
}

/// The record `r` with the field at block offset `off` replaced by `v`.
pub open spec fn set_field_at(r: RecordView, off: int, v: Seq<char>) -> RecordView {
    if off == 1 {
        RecordView { name: v, user: r.user, password: r.password }
    } else if off == 2 {
        RecordView { name: r.name, user: v, password: r.password }
    } else {
        RecordView { name: r.name, user: r.user, password: v }
    }
}

/// Some stored record's trimmed name equals `n`: the collision test that
/// guards `create`.
pub open spec fn has_name_trimmed(recs: Seq<RecordView>, n: Seq<char>) -> bool {
    exists|j: int| 0 <= j < recs.len() && trim_spec(#[trigger] recs[j].name) == n
}

/// A parsed stream lays its records out in consecutive four-line blocks.
pub proof fn lemma_parse_len(ls: Seq<Seq<char>>, rs: Seq<RecordView>)
    requires
        parse_stream(ls) == Some(rs),
    ensures
        ls.len() == 4 * rs.len(),
    decreases ls.len(),
{
    if ls.len() == 0 {
    } else {
        match parse_stream(ls.skip(4)) {
            Some(rest) => {
                lemma_parse_len(ls.skip(4), rest);
                assert(rs == seq![
                    RecordView { name: ls[1], user: ls[2], password: ls[3] },
                ] + rest);
            },
            None => {
                assert(false);
            },
        }
    }
}

/// Replacing one field line of one block rewrites exactly that record
/// and touches no other.
pub proof fn lemma_parse_update(
    ls: Seq<Seq<char>>,
    rs: Seq<RecordView>,
    k: int,
    off: int,
    v: Seq<char>,
)
    requires
        parse_stream(ls) == Some(rs),
        0 <= k < rs.len(),
        1 <= off <= 3,
        v != marker(),
    ensures
        parse_stream(ls.update(4 * k + off, v)) == Some(
            rs.update(k, set_field_at(rs[k], off, v)),
        ),
    decreases k,
{
    lemma_parse_len(ls, rs);
    let ls2 = ls.update(4 * k + off, v);
    match parse_stream(ls.skip(4)) {
        Some(rest) => {
            assert(rs == seq![RecordView { name: ls[1], user: ls[2], password: ls[3] }] + rest);
            if k == 0 {
                assert(ls2.skip(4) =~= ls.skip(4));
                assert(ls2[0] == ls[0]);
                assert(parse_stream(ls2) == Some(seq![
                    RecordView { name: ls2[1], user: ls2[2], password: ls2[3] },
                ] + rest));
                assert(seq![RecordView { name: ls2[1], user: ls2[2], password: ls2[3] }] + rest
                    =~~= rs.update(0, set_field_at(rs[0], off, v)));
            } else {
                lemma_parse_update(ls.skip(4), rest, k - 1, off, v);
                assert(ls.skip(4).update(4 * (k - 1) + off, v) =~= ls2.skip(4));
                assert(ls2[0] == ls[0] && ls2[1] == ls[1] && ls2[2] == ls[2] && ls2[3] == ls[3]);
                assert(parse_stream(ls2) == Some(seq![
                    RecordView { name: ls[1], user: ls[2], password: ls[3] },
                ] + rest.update(k - 1, set_field_at(rest[k - 1], off, v))));
                assert(rest[k - 1] == rs[k]);
                assert(seq![RecordView { name: ls[1], user: ls[2], password: ls[3] }]
                    + rest.update(k - 1, set_field_at(rs[k], off, v)) =~~= rs.update(
                    k,
                    set_field_at(rs[k], off, v),
                ));
            }
        },
        None => {
            assert(false);
        },
    }
}

/// Splicing one whole block out removes exactly that record and shifts
/// nothing else.
pub proof fn lemma_parse_remove(ls: Seq<Seq<char>>, rs: Seq<RecordView>, k: int)
    requires
        parse_stream(ls) == Some(rs),
        0 <= k < rs.len(),
    ensures
        parse_stream(ls.subrange(0, 4 * k) + ls.skip(4 * k + 4)) == Some(rs.remove(k)),
    decreases k,
{
    lemma_parse_len(ls, rs);
    let ls2 = ls.subrange(0, 4 * k) + ls.skip(4 * k + 4);
    match parse_stream(ls.skip(4)) {
        Some(rest) => {
            assert(rs == seq![RecordView { name: ls[1], user: ls[2], password: ls[3] }] + rest);
            if k == 0 {
                assert(ls2 =~= ls.skip(4));
                assert(rest =~~= rs.remove(0));
            } else {
                lemma_parse_remove(ls.skip(4), rest, k - 1);
                let inner = ls.skip(4).subrange(0, 4 * (k - 1)) + ls.skip(4).skip(4 * (k - 1) + 4);
                assert(ls2 =~= ls.subrange(0, 4) + inner);
                assert(ls2[0] == ls[0] && ls2[1] == ls[1] && ls2[2] == ls[2] && ls2[3] == ls[3]);
                assert(ls2.skip(4) =~= inner);
                assert(parse_stream(ls2) == Some(seq![
                    RecordView { name: ls[1], user: ls[2], password: ls[3] },
                ] + rest.remove(k - 1)));
                assert(seq![RecordView { name: ls[1], user: ls[2], password: ls[3] }] + rest.remove(
                    k - 1,
                ) =~~= rs.remove(k));
            }
        },
        None => {
            assert(false);
        },
    }
}

/// Appending a block whose field lines are no markers appends exactly
/// that record and preserves all others.
pub proof fn lemma_parse_append(ls: Seq<Seq<char>>, rs: Seq<RecordView>, r: RecordView)
    requires
        parse_stream(ls) == Some(rs),
        r.name != marker(),
        r.user != marker(),
        r.password != marker(),
    ensures
        parse_stream(ls + block_of(r)) == Some(rs.push(r)),
    decreases ls.len(),
{
    let big = ls + block_of(r);
    if ls.len() == 0 {
        assert(big =~= block_of(r));
        assert(big[0] == marker() && big.len() == 4);
        assert(big[1] == r.name && big[2] == r.user && big[3] == r.password);
        assert(big.skip(4) =~= Seq::<Seq<char>>::empty());
        assert(parse_stream(big.skip(4)) == Some(Seq::<RecordView>::empty()));
        assert(rs =~~= Seq::<RecordView>::empty());
        assert(parse_stream(big) == Some(seq![
            RecordView { name: big[1], user: big[2], password: big[3] },
        ] + Seq::<RecordView>::empty()));
        assert(seq![RecordView { name: big[1], user: big[2], password: big[3] }]
            + Seq::<RecordView>::empty() =~~= rs.push(r));
    } else {
        match parse_stream(ls.skip(4)) {
            Some(rest) => {
                assert(rs == seq![
                    RecordView { name: ls[1], user: ls[2], password: ls[3] },
                ] + rest);
                lemma_parse_append(ls.skip(4), rest, r);
                assert(big.skip(4) =~= ls.skip(4) + block_of(r));
                assert(big[0] == ls[0] && big[1] == ls[1] && big[2] == ls[2] && big[3] == ls[3]);
                assert(parse_stream(big) == Some(seq![
                    RecordView { name: ls[1], user: ls[2], password: ls[3] },
                ] + rest.push(r)));
                assert(seq![RecordView { name: ls[1], user: ls[2], password: ls[3] }] + rest.push(r)
                    =~~= rs.push(r));
            },
            None => {
                assert(false);
            },
        }
    }
}

/// The record as `create` stores it: the name trimmed of surrounding
/// whitespace, the other fields verbatim.
pub open spec fn stored_record(r: RecordView) -> RecordView {
    RecordView { name: trim_spec(r.name), user: r.user, password: r.password }
}

/// What `create` accepts: a storable trimmed name and field lines that
/// keep the stream parseable.
pub open spec fn create_valid(r: RecordView) -> bool {
    valid_name(trim_spec(r.name)) && valid_field(r.user) && valid_field(r.password)
}

/// The value an update writes: a new name is trimmed like a created one,
/// the other fields go in verbatim.
pub open spec fn update_stored_val(k: Key, v: Seq<char>) -> Seq<char> {
    match k {
        Key::Name => trim_spec(v),
        Key::User => v,
        Key::Password => v,
    }
}

/// What `update` accepts as a new field value.
pub open spec fn update_val_valid(k: Key, v: Seq<char>) -> bool {
    match k {
        Key::Name => valid_name(trim_spec(v)),
        Key::User => valid_field(v),
        Key::Password => valid_field(v),
    }
}

/// Validates one caller-supplied field line.
fn check_field(s: &str) -> (r: bool)
    ensures
        r == valid_field(s@),
{
    !contains_newline(s) && !eq_str(s, "resource")
}

/// Validates a (trimmed) resource name.
fn check_name(s: &str) -> (r: bool)
    ensures
        r == valid_name(s@),
{
    check_field(s) && !eq_str(s, "nonce")
}

/// The canonical empty vault: no records are represented by the empty
/// plaintext. (A bare delimiter line is the one historical alternative;
/// this engine writes and reads only the empty form, so the
/// all-records-deleted state has a single representation.)
pub fn bootstrap_plaintext() -> (r: String)
    ensures
        r@ == Seq::<char>::empty(),
        records_of(r@) == Some(Seq::<RecordView>::empty()),
{
    let r = String::new();
    proof {
        assert(line_split(r@) =~~= Seq::<Seq<char>>::empty());
    }
    r
}

/// Appends a new record to the stream, enforcing uniqueness of the
/// trimmed name; the serialized result holds every old record unchanged
/// and the new one last.
#[verifier::loop_isolation(false)]
pub fn create(resource: &Instance, content: &str) -> (r: Result<String, VaultError>)
    ensures
        ({
            let stored = stored_record(resource@);
            if !create_valid(resource@) {
                r == Err::<String, VaultError>(VaultError::InvalidInput)
            } else {
                match records_of(content@) {
                    None => r == Err::<String, VaultError>(VaultError::MalformedRecord),
                    Some(recs) => if has_name_trimmed(recs, stored.name) {
                        r == Err::<String, VaultError>(VaultError::AlreadyExists)
                    } else {
                        r matches Ok(s) && s@ == unsplit(line_split(content@) + block_of(stored))
                            && records_of(s@) == Some(recs.push(stored))
                    },
                }
            }
        }),
{
    let name_t = trim(resource.name.as_str());
    if !check_name(name_t.as_str()) {
        return Err(VaultError::InvalidInput);
    }
    if !check_field(resource.user.as_str()) {
        return Err(VaultError::InvalidInput);
    }
    if !check_field(resource.password.as_str()) {
        return Err(VaultError::InvalidInput);
    }
    let ghost stored = stored_record(resource@);
    let recs = match parse_all(content) {
        Ok(v) => v,
        Err(e) => {
            return Err(e);
        },
    };
    let ghost dv = recs.deep_view();
    let n = recs.len();
    let mut j: usize = 0;
    while j < n
        invariant
            0 <= j <= n,
            forall|j2: int| 0 <= j2 < j ==> trim_spec(#[trigger] dv[j2].name) != stored.name,
        decreases n - j,
    {
        proof {
            assert(dv[j as int] =~~= recs@[j as int]@);
        }
        let ex = trim(recs[j].name.as_str());
        if ex == name_t {
            proof {
                assert(trim_spec(dv[j as int].name) == stored.name);
                assert(has_name_trimmed(dv, stored.name));
            }
            return Err(VaultError::AlreadyExists);
        }
        j = j + 1;
    }
    proof {
        assert(!has_name_trimmed(dv, stored.name));
    }
    let mut lines = split_lines(content);
    let ghost ls = lines.deep_view();
    lines.push(String::from_str("resource"));
    lines.push(name_t);
    lines.push(resource.user.clone());
    lines.push(resource.password.clone());
    let ghost ls2 = ls + block_of(stored);
    proof {
        assert(lines.deep_view() =~~= ls2);
        lemma_parse_append(ls, dv, stored);
        assert(no_newline(marker())) by {
            reveal_strlit("resource");
        }
        assert forall|k2: int| 0 <= k2 < ls2.len() implies no_newline(#[trigger] ls2[k2]) by {
            if k2 < ls.len() {
                assert(ls2[k2] == ls[k2]);
            } else {
                assert(ls2[k2] == block_of(stored)[k2 - ls.len()]);
            }
        }
        lemma_line_split_of_unsplit(ls2);
    }
    let out = join_lines(&lines);
    Ok(out)
}

/// Finds the position of the first record named `name`.
fn find_record(recs: &Vec<Instance>, name: &str) -> (r: Option<usize>)
    ensures
        match r {
            Some(k) => find_from(recs.deep_view(), name@, 0) == Some(k as int),
            None => find_from(recs.deep_view(), name@, 0) is None,
        },
{
    let n = recs.len();
    let mut k: usize = 0;
    while k < n
        invariant
            0 <= k <= n,
            n == recs.len(),
            find_from(recs.deep_view(), name@, 0) == find_from(recs.deep_view(), name@, k as int),
        decreases n - k,
    {
        proof {
            assert(recs.deep_view()[k as int] =~~= recs@[k as int]@);
        }
        if eq_str(recs[k].name.as_str(), name) {
            proof {
                assert(find_from(recs.deep_view(), name@, k as int) == Some(k as int));
            }
            return Some(k);
        }
        k = k + 1;
    }
    None
}

/// Replaces exactly one field line of the first record named
/// `input.name`; every other line of the stream stands unchanged.
#[verifier::loop_isolation(false)]
pub fn update(input: UpdateInput) -> (r: Result<String, VaultError>)
    ensures
        ({
            let stored = update_stored_val(input.key, input.val@);
            if !update_val_valid(input.key, input.val@) {
                r == Err::<String, VaultError>(VaultError::InvalidInput)
            } else {
                match records_of(input.content@) {
                    None => r == Err::<String, VaultError>(VaultError::MalformedRecord),
                    Some(recs) => match find_from(recs, input.name@, 0) {
                        None => r == Err::<String, VaultError>(VaultError::NotFound),
                        Some(k) => r matches Ok(s) && s@ == unsplit(
                            line_split(input.content@).update(
                                4 * k + field_offset(input.key),
                                stored,
                            ),
                        ) && records_of(s@) == Some(
                            recs.update(k, set_field_at(recs[k], field_offset(input.key), stored)),
                        ),
                    },
                }
            }
        }),
{
    let off: usize = match input.key {
        Key::Name => 1,
        Key::User => 2,
        Key::Password => 3,
    };
    let stored_val: String = match input.key {
        Key::Name => trim(input.val.as_str()),
        Key::User => input.val.clone(),
        Key::Password => input.val.clone(),
    };
    let ghost sv = stored_val@;
    proof {
        assert(sv == update_stored_val(input.key, input.val@));
        assert(off as int == field_offset(input.key));
    }
    let valid = match input.key {
        Key::Name => check_name(stored_val.as_str()),
        Key::User => check_field(stored_val.as_str()),
        Key::Password => check_field(stored_val.as_str()),
    };
    if !valid {
        return Err(VaultError::InvalidInput);
    }
    let recs = match parse_all(input.content.as_str()) {
        Ok(v) => v,
        Err(e) => {
            return Err(e);
        },
    };
    let ghost dv = recs.deep_view();
    let k: usize = match find_record(&recs, input.name.as_str()) {
        Some(k) => k,
        None => {
            return Err(VaultError::NotFound);
        },
    };
    proof {
        lemma_find_from_some(dv, input.name@, 0, k as int);
    }
    let mut lines = split_lines(input.content.as_str());
    let ghost ls = lines.deep_view();
    let len = lines.len();
    proof {
        lemma_parse_len(ls, dv);
        assert(len == ls.len());
        assert(4 * (k as int) + (off as int) < ls.len());
    }
    let j: usize = 4 * k + off;
    lines[j] = stored_val;
    let ghost ls2 = ls.update(j as int, sv);
    proof {
        assert(lines.deep_view() =~~= ls2);
        lemma_parse_update(ls, dv, k as int, off as int, sv);
        assert forall|k2: int| 0 <= k2 < ls2.len() implies no_newline(#[trigger] ls2[k2]) by {
            if k2 != j as int {
                assert(ls2[k2] == ls[k2]);
            }
        }
        lemma_line_split_of_unsplit(ls2);
    }
    let out = join_lines(&lines);
    Ok(out)
}

/// Removes the whole four-line block of the first record named `name`,
/// keeping every other record in order.
#[verifier::loop_isolation(false)]
pub fn delete(name: &str, content: String) -> (r: Result<String, VaultError>)
    ensures
        ({
            match records_of(content@) {
                None => r == Err::<String, VaultError>(VaultError::MalformedRecord),
                Some(recs) => match find_from(recs, name@, 0) {
                    None => r == Err::<String, VaultError>(VaultError::NotFound),
                    Some(k) => r matches Ok(s) && s@ == unsplit(
                        line_split(content@).subrange(0, 4 * k) + line_split(content@).skip(
                            4 * k + 4,
                        ),
                    ) && records_of(s@) == Some(recs.remove(k)),
                },
            }
        }),
{
    let recs = match parse_all(content.as_str()) {
        Ok(v) => v,
        Err(e) => {
            return Err(e);
        },
    };
    let ghost dv = recs.deep_view();
    let k: usize = match find_record(&recs, name) {
        Some(k) => k,
        None => {
            return Err(VaultError::NotFound);
        },
    };
    proof {
        lemma_find_from_some(dv, name@, 0, k as int);
    }
    let mut lines = split_lines(content.as_str());
    let ghost ls = lines.deep_view();
    let ghost l0 = lines@;
    let len = lines.len();
    proof {
        lemma_parse_len(ls, dv);
        assert(len == ls.len());
        assert(4 * (k as int) + 4 <= ls.len());
    }
    let j: usize = 4 * k;
    lines.remove(j);
    lines.remove(j);
    lines.remove(j);
    lines.remove(j);
    let ghost ls2 = ls.subrange(0, j as int) + ls.skip(j as int + 4);
    proof {
        assert(lines@ =~= l0.subrange(0, j as int) + l0.skip(j as int + 4));
        assert(lines.deep_view() =~~= ls2);
        lemma_parse_remove(ls, dv, k as int);
        assert forall|k2: int| 0 <= k2 < ls2.len() implies no_newline(#[trigger] ls2[k2]) by {
            if k2 < j as int {
                assert(ls2[k2] == ls[k2]);
            } else {
                assert(ls2[k2] == ls[k2 + 4]);
            }
        }
        lemma_line_split_of_unsplit(ls2);
    }
    let out = join_lines(&lines);
    Ok(out)
}

/// Where the first match stands: it carries the name, and no record
/// before it does.
pub proof fn lemma_find_from_some(recs: Seq<RecordView>, name: Seq<char>, i: int, k: int)
    requires
        find_from(recs, name, i) == Some(k),
    ensures
        i <= k < recs.len(),
        recs[k].name == name,
        forall|j: int| i <= j < k ==> recs[j].name != name,
    decreases recs.len() - i,
{
    if i < 0 || i >= recs.len() {
        assert(false);
    } else if recs[i].name == name {
    } else {
        lemma_find_from_some(recs, name, i + 1, k);
    }
}

/// No record from `i` on carries the name, so the search comes back
/// empty.
pub proof fn lemma_find_from_none_intro(recs: Seq<RecordView>, name: Seq<char>, i: int)
    requires
        forall|j: int| i <= j < recs.len() ==> recs[j].name != name,
    ensures
        find_from(recs, name, i) is None,
    decreases recs.len() - i,
{
    if i < 0 || i >= recs.len() {
    } else {
        lemma_find_from_none_intro(recs, name, i + 1);
    }
}

/// Law: a stream written by a successful `create` parses back, and a
/// lookup of the stored (trimmed) name finds exactly the stored triple:
/// the trimmed name, and user and password untouched.
pub proof fn lemma_create_then_get(content: Seq<char>, recs: Seq<RecordView>, r: RecordView)
    requires
        records_of(content) == Some(recs),
        create_valid(r),
        !has_name_trimmed(recs, stored_record(r).name),
    ensures
        ({
            let stored = stored_record(r);
            let out = unsplit(line_split(content) + block_of(stored));
            &&& records_of(out) == Some(recs.push(stored))
            &&& find_from(recs.push(stored), stored.name, 0) == Some(recs.len() as int)
            &&& recs.push(stored)[recs.len() as int].name == trim_spec(r.name)
            &&& recs.push(stored)[recs.len() as int].user == r.user
            &&& recs.push(stored)[recs.len() as int].password == r.password
        }),
{
    let stored = stored_record(r);
    let ls = line_split(content);
    lemma_parse_append(ls, recs, stored);
    crate::lines::lemma_line_split_no_newline(content);
    assert(no_newline(marker())) by {
        reveal_strlit("resource");
    }
    let ls2 = ls + block_of(stored);
    assert forall|k2: int| 0 <= k2 < ls2.len() implies no_newline(#[trigger] ls2[k2]) by {
        if k2 < ls.len() {
            assert(ls2[k2] == ls[k2]);
        } else {
            assert(ls2[k2] == block_of(stored)[k2 - ls.len()]);
        }
    }
    lemma_line_split_of_unsplit(ls2);
    lemma_trim_idempotent(r.name);
    let recs2 = recs.push(stored);
    assert forall|j: int| 0 <= j < recs.len() implies recs2[j].name != stored.name by {
        if recs[j].name == stored.name {
            assert(trim_spec(recs[j].name) == stored.name);
        }
    }
    lemma_find_from_some_intro(recs2, stored.name, 0, recs.len() as int);
}

proof fn lemma_find_from_some_intro(recs: Seq<RecordView>, name: Seq<char>, i: int, k: int)
    requires
        0 <= i <= k < recs.len(),
        recs[k].name == name,
        forall|j: int| i <= j < k ==> recs[j].name != name,
    ensures
        find_from(recs, name, i) == Some(k),
    decreases k - i,
{
    if i < k {
        lemma_find_from_some_intro(recs, name, i + 1, k);
    }
}

/// Law: the stream a successful `create` returns already carries the
/// stored name, so a second `create` under the same trimmed name meets
/// the collision test and must refuse with `AlreadyExists`, leaving the
/// record count unchanged.
pub proof fn lemma_create_unique(recs: Seq<RecordView>, r: RecordView, r2: RecordView)
    requires
        trim_spec(r2.name) == trim_spec(r.name),
    ensures
        has_name_trimmed(recs.push(stored_record(r)), trim_spec(r2.name)),
{
    lemma_trim_idempotent(r.name);
    let recs2 = recs.push(stored_record(r));
    assert(trim_spec(recs2[recs.len() as int].name) == trim_spec(r2.name));
}

/// Law: an update rewrites one field of one record and leaves every
/// other record, the order, and the count unchanged.
pub proof fn lemma_update_isolation(recs: Seq<RecordView>, k: int, key: Key, v: Seq<char>)
    requires
        0 <= k < recs.len(),
    ensures
        ({
            let recs2 = recs.update(k, set_field_at(recs[k], field_offset(key), v));
            &&& recs2.len() == recs.len()
            &&& forall|j: int| 0 <= j < recs.len() && j != k ==> recs2[j] == recs[j]
            &&& (key is Name ==> recs2[k].name == v && recs2[k].user == recs[k].user
                && recs2[k].password == recs[k].password)
            &&& (key is User ==> recs2[k].user == v && recs2[k].name == recs[k].name
                && recs2[k].password == recs[k].password)
            &&& (key is Password ==> recs2[k].password == v && recs2[k].name == recs[k].name
                && recs2[k].user == recs[k].user)
        }),
{
}

/// Law: after deleting the only record under a name, a lookup of that
/// name comes back empty.
pub proof fn lemma_delete_then_get(recs: Seq<RecordView>, name: Seq<char>, k: int)
    requires
        find_from(recs, name, 0) == Some(k),
        forall|j: int| 0 <= j < recs.len() && j != k ==> recs[j].name != name,
    ensures
        find_from(recs.remove(k), name, 0) is None,
{
    lemma_find_from_some(recs, name, 0, k);
    assert forall|j: int| 0 <= j < recs.remove(k).len() implies recs.remove(k)[j].name != name by {
        if j < k {
            assert(recs.remove(k)[j] == recs[j]);
        } else {
            assert(recs.remove(k)[j] == recs[j + 1]);
        }
    }
    lemma_find_from_none_intro(recs.remove(k), name, 0);
}

} // verus!
