//! The registry enumerator: the fallback path that fetches a whole
//! registry listing and filters it locally, for services that only
//! support bulk enumeration.

use vstd::prelude::*;

use crate::ids;
use crate::wire;

verus! {

/// One album-registry entry: a token index and its owner's textual
/// reference.
#[derive(Clone, Debug)]
pub struct GGRegistryRecord {
    pub index: u32,
    pub owner: String,
}

/// One entry of the other registry family; the same shape on the wire.
#[derive(Clone, Debug)]
pub struct DakuRegistryRecord {
    pub index: u32,
    pub owner: String,
}

/// A loose record form for registries that answer with arbitrary keyed
/// text fields.
#[derive(Debug)]
pub struct DakuRecordAlt {
    pub fields: std::collections::HashMap<String, String>,
}

/// One entry of a registry keyed by owner identity rather than index.
#[derive(Debug)]
pub struct TokenOwner {
    pub token_id: u64,
    pub owner: String,
}

/// A loose registry value: an owner reference with optional keyed
/// metadata.
#[derive(Debug)]
pub struct RegistryValue {
    pub owner: String,
    pub metadata: Option<std::collections::HashMap<String, String>>,
}

/// All owner texts of a parsed listing are valid UTF-8.
pub open spec fn all_owners_utf8(ps: Seq<(u32, Seq<u8>)>) -> bool {
    forall|i: int| 0 <= i < ps.len() ==> vstd::utf8::valid_utf8((#[trigger] ps[i]).1)
}

/// The listing a reply's bytes carry, if they fit the registry layout and
/// every owner text is readable.
pub open spec fn registry_records_spec(s: Seq<u8>) -> Option<Seq<(u32, Seq<char>)>> {
    match wire::parse_registry(s) {
        Some(ps) => if all_owners_utf8(ps) {
            Some(ps.map_values(|p: (u32, Seq<u8>)| (p.0, vstd::utf8::decode_utf8(p.1))))
        } else {
            None
        },
        None => None,
    }
}

/// The view of one decoded record.
pub open spec fn record_view(r: GGRegistryRecord) -> (u32, Seq<char>) {
    (r.index, r.owner@)
}

/// Decodes a listing reply into records; `None` when the bytes do not fit
/// the registry layout or an owner text is unreadable.
pub fn decode_registry_records(bytes: &Vec<u8>) -> (r: Option<Vec<GGRegistryRecord>>)
    ensures
        match r {
            Some(v) => registry_records_spec(bytes@) == Some(
                v@.map_values(|rec: GGRegistryRecord| record_view(rec)),
            ),
            None => registry_records_spec(bytes@) is None,
        },
{
    match wire::parse_registry_bytes(bytes) {
        Some(pairs) => {
            let ghost ps = pairs@.map_values(|p: (u32, Vec<u8>)| wire::pair_view(p));
            let mut out: Vec<GGRegistryRecord> = Vec::new();
            let n = pairs.len();
            let mut i: usize = 0;
            while i < n
                invariant
                    n == pairs@.len(),
                    ps == pairs@.map_values(|p: (u32, Vec<u8>)| wire::pair_view(p)),
                    wire::parse_registry(bytes@) == Some(ps),
                    0 <= i <= n,
                    out@.len() == i,
                    forall|q: int| 0 <= q < i ==> vstd::utf8::valid_utf8((#[trigger] ps[q]).1),
                    forall|q: int|
                        0 <= q < i ==> record_view(#[trigger] out@[q]) == (
                        ps[q].0,
                        vstd::utf8::decode_utf8(ps[q].1),
                    ),
                decreases n - i,
            {
                let idx = pairs[i].0;
                match ids::string_from_utf8(&pairs[i].1) {
                    Some(owner) => {
                        assert(ps[i as int] == wire::pair_view(pairs@[i as int]));
                        out.push(GGRegistryRecord { index: idx, owner });
                    },
                    None => {
                        assert(ps[i as int] == wire::pair_view(pairs@[i as int]));
                        assert(!vstd::utf8::valid_utf8(ps[i as int].1));
                        assert(!all_owners_utf8(ps));
                        return None;
                    },
                }
                i = i + 1;
            }
            assert(out@.map_values(|rec: GGRegistryRecord| record_view(rec)) =~= ps.map_values(
                |p: (u32, Seq<u8>)| (p.0, vstd::utf8::decode_utf8(p.1)),
            ));
            Some(out)
        },
        None => None,
    }
}

/// The token indices of a listing, in order.
pub fn registry_tokens(records: &Vec<GGRegistryRecord>) -> (r: Vec<u32>)
    ensures
        r@ == records@.map_values(|rec: GGRegistryRecord| rec.index),
{
    let mut out: Vec<u32> = Vec::new();
    let n = records.len();
    let mut i: usize = 0;
    while i < n
        invariant
            n == records@.len(),
            0 <= i <= n,
            out@ =~= records@.map_values(|rec: GGRegistryRecord| rec.index).take(i as int),
        decreases n - i,
    {
        out.push(records[i].index);
        assert(out@ =~= records@.map_values(|rec: GGRegistryRecord| rec.index).take(i + 1));
        i = i + 1;
    }
    assert(out@ =~= records@.map_values(|rec: GGRegistryRecord| rec.index));
    out
}

/// The entries whose owner text is a well-formed identity, each with the
/// raw bytes that text denotes, in listing order.
pub open spec fn principal_entries(rs: Seq<GGRegistryRecord>) -> Seq<(u32, Seq<u8>)>
    decreases rs.len(),
{
    if rs.len() == 0 {
        Seq::empty()
    } else {
        let rest = principal_entries(rs.drop_first());
        match ids::parsed_principal(rs[0].owner@) {
            Some(raw) => seq![(rs[0].index, raw)] + rest,
            None => rest,
        }
    }
}

proof fn lemma_principal_entries_snoc(rs: Seq<GGRegistryRecord>, k: int)
    requires
        0 <= k < rs.len(),
    ensures
        principal_entries(rs.take(k + 1)) == principal_entries(rs.take(k)) + (match ids::parsed_principal(
            rs[k].owner@,
        ) {
            Some(raw) => seq![(rs[k].index, raw)],
            None => Seq::<(u32, Seq<u8>)>::empty(),
        }),
    decreases k,
{
    if k == 0 {
        assert(rs.take(1)[0] == rs[0]);
        assert(rs.take(1).drop_first() =~= Seq::<GGRegistryRecord>::empty());
        assert(rs.take(0) =~= Seq::<GGRegistryRecord>::empty());
        assert(principal_entries(Seq::<GGRegistryRecord>::empty())
            =~= Seq::<(u32, Seq<u8>)>::empty());
        match ids::parsed_principal(rs[0].owner@) {
            Some(raw) => {
                assert(seq![(rs[0].index, raw)] + Seq::<(u32, Seq<u8>)>::empty()
                    =~= seq![(rs[0].index, raw)]);
                assert(principal_entries(rs.take(1)) =~= seq![(rs[0].index, raw)]);
                assert(principal_entries(rs.take(0)) + seq![(rs[0].index, raw)] =~= seq![
                    (rs[0].index, raw),
                ]);
            },
            None => {
                assert(principal_entries(rs.take(1)) =~= Seq::<(u32, Seq<u8>)>::empty());
                assert(principal_entries(rs.take(0)) + Seq::<(u32, Seq<u8>)>::empty()
                    =~= Seq::<(u32, Seq<u8>)>::empty());
            },
        }
    } else {
        lemma_principal_entries_snoc(rs.drop_first(), k - 1);
        assert(rs.take(k + 1).drop_first() =~= rs.drop_first().take(k));
        assert(rs.take(k).drop_first() =~= rs.drop_first().take(k - 1));
        assert(rs.take(k + 1)[0] == rs[0]);
        assert(rs.take(k)[0] == rs[0]);
        assert(rs.drop_first()[k - 1] == rs[k]);
        match ids::parsed_principal(rs[0].owner@) {
            Some(raw) => {
                assert(seq![(rs[0].index, raw)] + (principal_entries(rs.drop_first().take(k - 1))
                    + (match ids::parsed_principal(rs[k].owner@) {
                    Some(r2) => seq![(rs[k].index, r2)],
                    None => Seq::<(u32, Seq<u8>)>::empty(),
                })) =~= (seq![(rs[0].index, raw)] + principal_entries(
                    rs.drop_first().take(k - 1),
                )) + (match ids::parsed_principal(rs[k].owner@) {
                    Some(r2) => seq![(rs[k].index, r2)],
                    None => Seq::<(u32, Seq<u8>)>::empty(),
                }));
            },
            None => {},
        }
    }
}

/// The listing reduced to entries whose owner parses as an identity, each
/// index paired with the identity's raw bytes.  Unparseable owners are
/// skipped.
pub fn registry_principal_entries(records: &Vec<GGRegistryRecord>) -> (r: Vec<(u32, Vec<u8>)>)
    ensures
        r@.map_values(|p: (u32, Vec<u8>)| wire::pair_view(p)) == principal_entries(records@),
{
    let mut out: Vec<(u32, Vec<u8>)> = Vec::new();
    let n = records.len();
    let mut i: usize = 0;
    while i < n
        invariant
            n == records@.len(),
            0 <= i <= n,
            out@.map_values(|p: (u32, Vec<u8>)| wire::pair_view(p)) =~= principal_entries(
                records@.take(i as int),
            ),
        decreases n - i,
    {
        let rec = &records[i];
        let ghost old_out = out@;
        match ids::parse_principal_text(rec.owner.as_str()) {
            Some(raw) => {
                out.push((rec.index, raw));
            },
            None => {},
        }
        proof {
            lemma_principal_entries_snoc(records@, i as int);
            assert(out@.map_values(|p: (u32, Vec<u8>)| wire::pair_view(p)) =~= principal_entries(
                records@.take(i + 1),
            ));
        }
        i = i + 1;
    }
    assert(records@.take(n as int) =~= records@);
    out
}

/// The indices owned by `owner_text`, by exact match against the owner
/// reference, in listing order.
pub open spec fn owned_indices(rs: Seq<GGRegistryRecord>, owner: Seq<char>) -> Seq<u32>
    decreases rs.len(),
{
    if rs.len() == 0 {
        Seq::empty()
    } else {
        let rest = owned_indices(rs.drop_first(), owner);
        if rs[0].owner@ == owner {
            seq![rs[0].index] + rest
        } else {
            rest
        }
    }
}

proof fn lemma_owned_indices_snoc(rs: Seq<GGRegistryRecord>, owner: Seq<char>, k: int)
    requires
        0 <= k < rs.len(),
    ensures
        owned_indices(rs.take(k + 1), owner) == owned_indices(rs.take(k), owner) + (if rs[k].owner@
            == owner {
            seq![rs[k].index]
        } else {
            Seq::<u32>::empty()
        }),
    decreases k,
{
    if k == 0 {
        assert(rs.take(1)[0] == rs[0]);
        assert(rs.take(1).drop_first() =~= Seq::<GGRegistryRecord>::empty());
        assert(rs.take(0) =~= Seq::<GGRegistryRecord>::empty());
        assert(owned_indices(Seq::<GGRegistryRecord>::empty(), owner) =~= Seq::<u32>::empty());
        if rs[0].owner@ == owner {
            assert(seq![rs[0].index] + Seq::<u32>::empty() =~= seq![rs[0].index]);
            assert(owned_indices(rs.take(1), owner) =~= seq![rs[0].index]);
            assert(owned_indices(rs.take(0), owner) + seq![rs[0].index] =~= seq![rs[0].index]);
        } else {
            assert(owned_indices(rs.take(1), owner) =~= Seq::<u32>::empty());
            assert(owned_indices(rs.take(0), owner) + Seq::<u32>::empty() =~= Seq::<u32>::empty());
        }
    } else {
        lemma_owned_indices_snoc(rs.drop_first(), owner, k - 1);
        assert(rs.take(k + 1).drop_first() =~= rs.drop_first().take(k));
        assert(rs.take(k).drop_first() =~= rs.drop_first().take(k - 1));
        assert(rs.take(k + 1)[0] == rs[0]);
        assert(rs.take(k)[0] == rs[0]);
        assert(rs.drop_first()[k - 1] == rs[k]);
        if rs[0].owner@ == owner {
            assert(seq![rs[0].index] + (owned_indices(rs.drop_first().take(k - 1), owner) + (
            if rs[k].owner@ == owner {
                seq![rs[k].index]
            } else {
                Seq::<u32>::empty()
            })) =~= (seq![rs[0].index] + owned_indices(rs.drop_first().take(k - 1), owner)) + (
            if rs[k].owner@ == owner {
                seq![rs[k].index]
            } else {
                Seq::<u32>::empty()
            }));
        }
    }
}

/// The indices held by one owner: exactly the entries whose owner
/// reference equals the queried text, in listing order.
pub fn get_tokens_for_owner(records: &Vec<GGRegistryRecord>, owner_text: &String) -> (r: Vec<u32>)
    ensures
        r@ == owned_indices(records@, owner_text@),
{
    let mut out: Vec<u32> = Vec::new();
    let n = records.len();
    let mut i: usize = 0;
    while i < n
        invariant
            n == records@.len(),
            0 <= i <= n,
            out@ =~= owned_indices(records@.take(i as int), owner_text@),
        decreases n - i,
    {
        let rec = &records[i];
        if rec.owner.eq(owner_text) {
            out.push(rec.index);
        }
        proof {
            lemma_owned_indices_snoc(records@, owner_text@, i as int);
            assert(out@ =~= owned_indices(records@.take(i + 1), owner_text@));
        }
        i = i + 1;
    }
    assert(records@.take(n as int) =~= records@);
    out
}

} // verus!
