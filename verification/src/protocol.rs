use vstd::prelude::*;

use crate::codec::{encode_payload, payload_json};
use crate::model::{File_, FileV, Payload, PayloadV};
use crate::scan::{collect_inventory, inventory_of, RawEntry};
use crate::registry::OriginRegistry;

verus! {

/// What an accepted push does to the registry map: a payload that carries a
/// file list replaces that origin's snapshot wholesale; one without a list
/// changes nothing.
pub open spec fn push_result(
    m: Map<Seq<char>, Seq<FileV>>,
    p: PayloadV,
) -> Map<Seq<char>, Seq<FileV>> {
    match p.files {
        Some(fs) => m.insert(p.origin, fs),
        None => m,
    }
}

/// What an accepted withdrawal does to the registry map: the payload
/// origin's snapshot is deleted.
pub open spec fn withdraw_result(
    m: Map<Seq<char>, Seq<FileV>>,
    p: PayloadV,
) -> Map<Seq<char>, Seq<FileV>> {
    m.remove(p.origin)
}

/// The credential check every inbound call passes first: the request must
/// carry exactly the configured shared secret.
pub open spec fn authorized(expected: Seq<char>, provided: Option<&String>) -> bool {
    match provided {
        Some(p) => p@ == expected,
        None => false,
    }
}

/// Inbound push. Only a request carrying the exact configured secret is
/// accepted; any other never mutates the registry. An accepted push with a
/// file list replaces the named origin's snapshot; one without a list is a
/// no-op that still reports acceptance.
pub fn handle_insert_origin(
    reg: &mut OriginRegistry,
    expected: &String,
    provided: Option<&String>,
    payload: Payload,
) -> (accepted: bool)
    requires
        old(reg).wf(),
    ensures
        final(reg).wf(),
        accepted == authorized(expected@, provided),
        accepted ==> final(reg)@ == push_result(old(reg)@, payload@),
        !accepted ==> final(reg)@ == old(reg)@,
{
    let ok = match provided {
        Some(p) => p.eq(expected),
        None => false,
    };
    if ok {
        match payload.files {
            Some(files) => {
                reg.upsert(payload.origin, files);
            },
            None => {},
        }
    }
    ok
}

/// Inbound withdrawal. Only a request carrying the exact configured secret
/// is accepted; any other never mutates the registry. An accepted
/// withdrawal deletes the named origin's snapshot.
pub fn handle_delete_origin(
    reg: &mut OriginRegistry,
    expected: &String,
    provided: Option<&String>,
    payload: &Payload,
) -> (accepted: bool)
    requires
        old(reg).wf(),
    ensures
        final(reg).wf(),
        accepted == authorized(expected@, provided),
        accepted ==> final(reg)@ == withdraw_result(old(reg)@, payload@),
        !accepted ==> final(reg)@ == old(reg)@,
{
    let ok = match provided {
        Some(p) => p.eq(expected),
        None => false,
    };
    if ok {
        reg.remove(&payload.origin);
    }
    ok
}

/// Repeating the identical push any number of times leaves the registry as
/// one push left it.
pub proof fn lemma_push_idempotent(m: Map<Seq<char>, Seq<FileV>>, p: PayloadV)
    ensures
        push_result(push_result(m, p), p) == push_result(m, p),
{
    assert(push_result(push_result(m, p), p) =~= push_result(m, p));
}

/// One upsert or one removal, at the map level.
pub ghost enum RegOp {
    Upsert { id: Seq<char>, files: Seq<FileV> },
    Remove { id: Seq<char> },
}

/// The origin id an operation touches.
pub open spec fn op_id(op: RegOp) -> Seq<char> {
    match op {
        RegOp::Upsert { id, files } => id,
        RegOp::Remove { id } => id,
    }
}

/// The registry map after one operation.
pub open spec fn apply_op(
    m: Map<Seq<char>, Seq<FileV>>,
    op: RegOp,
) -> Map<Seq<char>, Seq<FileV>> {
    match op {
        RegOp::Upsert { id, files } => m.insert(id, files),
        RegOp::Remove { id } => m.remove(id),
    }
}

/// The registry map after a whole sequence of operations.
pub open spec fn replay(m: Map<Seq<char>, Seq<FileV>>, ops: Seq<RegOp>) -> Map<
    Seq<char>,
    Seq<FileV>,
>
    decreases ops.len(),
{
    if ops.len() == 0 {
        m
    } else {
        apply_op(replay(m, ops.drop_last()), ops.last())
    }
}

/// Index of the last operation in `ops` that touches `id`; `-1` if none does.
pub open spec fn last_touch(ops: Seq<RegOp>, id: Seq<char>) -> int
    decreases ops.len(),
{
    if ops.len() == 0 {
        -1
    } else if op_id(ops.last()) == id {
        ops.len() - 1
    } else {
        last_touch(ops.drop_last(), id)
    }
}

/// Last write wins per origin id: after replaying any operation sequence,
/// what the registry holds for an id is decided by the last operation that
/// touched that id alone — by the initial state when none did.
pub proof fn lemma_last_write_wins(
    m0: Map<Seq<char>, Seq<FileV>>,
    ops: Seq<RegOp>,
    id: Seq<char>,
)
    ensures
        ({
            let m1 = replay(m0, ops);
            let k = last_touch(ops, id);
            if k == -1 {
                m1.contains_key(id) == m0.contains_key(id) && (m0.contains_key(id) ==> m1[id]
                    == m0[id])
            } else {
                0 <= k < ops.len() && op_id(ops[k]) == id && match ops[k] {
                    RegOp::Upsert { id: i2, files } => m1.contains_key(id) && m1[id] == files,
                    RegOp::Remove { id: i2 } => !m1.contains_key(id),
                }
            }
        }),
    decreases ops.len(),
{
    if ops.len() > 0 {
        lemma_last_write_wins(m0, ops.drop_last(), id);
        if op_id(ops.last()) != id && last_touch(ops, id) >= 0 {
            lemma_last_touch_in_range(ops.drop_last(), id);
            assert(ops[last_touch(ops, id)] == ops.drop_last()[last_touch(ops, id)]);
        }
    }
}

/// A last touch that exists lies inside the sequence and touches the id.
pub proof fn lemma_last_touch_in_range(ops: Seq<RegOp>, id: Seq<char>)
    ensures
        last_touch(ops, id) >= 0 ==> last_touch(ops, id) < ops.len() && op_id(
            ops[last_touch(ops, id)],
        ) == id,
    decreases ops.len(),
{
    if ops.len() > 0 {
        lemma_last_touch_in_range(ops.drop_last(), id);
    }
}

/// One outbound relay call, fully determined: everything app-side I/O needs
/// to perform it.
pub struct OutboundRequest {
    pub put: bool,
    pub url: String,
    pub token: String,
    pub body: String,
}

/// The query flag that marks the startup announcement.
pub open spec fn first_marker() -> Seq<char> {
    seq!['?', 'f', 'i', 'r', 's', 't', '=', 't', 'r', 'u', 'e']
}

/// Builds the push that advertises this node's full inventory to the relay:
/// a PUT of the whole file list under this node's origin id, carrying the
/// shared secret, against the relay endpoint — with the initial-announcement
/// marker appended exactly on the first push after startup.
pub fn send_files(origin: &String, relay_url: &String, token: &String, first: bool, files: Vec<
    File_,
>) -> (r: OutboundRequest)
    ensures
        r.put,
        r.url@ == relay_url@ + if first {
            first_marker()
        } else {
            Seq::<char>::empty()
        },
        r.token == token,
        r.body@ == payload_json(
            PayloadV { origin: origin@, files: Some(files.deep_view()) },
        ),
{
    let mut url = relay_url.clone();
    if first {
        proof {
            reveal_strlit("?first=true");
            assert("?first=true"@ =~= first_marker());
        }
        url.append("?first=true");
    }
    let payload = Payload { origin: origin.clone(), files: Some(files) };
    let body = encode_payload(&payload);
    OutboundRequest { put: true, url, token: token.clone(), body }
}

/// Builds the withdrawal that announces this node going away: a DELETE for
/// this node's origin id, carrying the shared secret, against the relay
/// endpoint.
pub fn delete_origin(origin: &String, relay_url: &String, token: &String) -> (r: OutboundRequest)
    ensures
        !r.put,
        r.url == relay_url,
        r.token == token,
        r.body@ == payload_json(PayloadV { origin: origin@, files: None }),
{
    let payload = Payload { origin: origin.clone(), files: None };
    let body = encode_payload(&payload);
    OutboundRequest { put: false, url: relay_url.clone(), token: token.clone(), body }
}

/// One whole rescan-and-push cycle, up to the send itself: the inventory the
/// walk reported, filtered and normalized, packed into the relay push.
pub fn handle_update_notify(
    origin: &String,
    relay_url: &String,
    token: &String,
    first: bool,
    raw: &Vec<RawEntry>,
) -> (r: OutboundRequest)
    ensures
        r.put,
        r.url@ == relay_url@ + if first {
            first_marker()
        } else {
            Seq::<char>::empty()
        },
        r.token == token,
        r.body@ == payload_json(
            PayloadV { origin: origin@, files: Some(inventory_of(raw.deep_view())) },
        ),
{
    let files = collect_inventory(raw);
    send_files(origin, relay_url, token, first, files)
}

} // verus!
