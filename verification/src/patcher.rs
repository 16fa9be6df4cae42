//! Offset-based binary patcher: removes or inserts one serialized attribute
//! node directly in the raw ABX byte buffer, at the byte ranges and offsets
//! the decoder reported, and adjusts the trailing counter byte that sits
//! five bytes from the end of the buffer.

use crate::Policy;
use crate::GPolicy;
use vstd::prelude::*;
use vstd::slice::{slice_subrange, slice_to_vec};
use vstd::string::StringSliceAdditionalSpecFns;

verus! {

/// One step down with wrap-around at zero.
pub open spec fn wrap_dec(x: u8) -> u8 {
    if x == 0 {
        255
    } else {
        (x - 1) as u8
    }
}

/// One step up with wrap-around at 255.
pub open spec fn wrap_inc(x: u8) -> u8 {
    if x == 255 {
        0
    } else {
        (x + 1) as u8
    }
}

/// The byte at five from the end stepped by `f`, on buffers of at least
/// five bytes; shorter buffers stay as they are.
pub open spec fn with_trailer_dec(b: Seq<u8>) -> Seq<u8> {
    if b.len() >= 5 {
        b.update(b.len() - 5, wrap_dec(b[b.len() - 5]))
    } else {
        b
    }
}

/// As `with_trailer_dec`, stepping up instead.
pub open spec fn with_trailer_inc(b: Seq<u8>) -> Seq<u8> {
    if b.len() >= 5 {
        b.update(b.len() - 5, wrap_inc(b[b.len() - 5]))
    } else {
        b
    }
}

/// The serialized attribute node for a policy name: three fixed framing
/// bytes, the name's byte length as a big-endian 16-bit integer, then the
/// name's UTF-8 bytes.
pub open spec fn policy_node_bytes(name_bytes: Seq<u8>) -> Seq<u8> {
    seq![
        0xCFu8,
        0xFFu8,
        0xFFu8,
        (name_bytes.len() / 256) as u8,
        (name_bytes.len() % 256) as u8,
    ] + name_bytes
}

/// Serializes the attribute node that `insert_policy_bytes` splices in.
pub fn policy_to_bytes(policy_name: &str) -> (r: Vec<u8>)
    requires
        policy_name.spec_bytes().len() <= 0xFFFF,
    ensures
        r@ == policy_node_bytes(policy_name.spec_bytes()),
{
    let mut out: Vec<u8> = Vec::new();
    out.push(0xCF);
    out.push(0xFF);
    out.push(0xFF);
    let name_len = policy_name.len();
    out.push((name_len / 256) as u8);
    out.push((name_len % 256) as u8);
    out.extend_from_slice(policy_name.as_bytes());
    proof {
        assert(out@ =~= policy_node_bytes(policy_name.spec_bytes()));
    }
    out
}

/// Removes the byte range `[start, end)` of one policy from the buffer and
/// steps the trailing counter byte (five from the end of the shortened
/// buffer) down by one, wrapping on underflow.
pub fn remove_policy_bytes(buffer: &mut Vec<u8>, start: u32, end: u32)
    requires
        start <= end,
        end <= old(buffer)@.len(),
    ensures
        final(buffer)@ == with_trailer_dec(
            old(buffer)@.subrange(0, start as int) + old(buffer)@.subrange(
                end as int,
                old(buffer)@.len() as int,
            ),
        ),
        final(buffer)@.len() == old(buffer)@.len() - (end - start),
{
    let len = buffer.len();
    let mut out = slice_to_vec(slice_subrange(buffer.as_slice(), 0, start as usize));
    out.extend_from_slice(slice_subrange(buffer.as_slice(), end as usize, len));
    if out.len() >= 5 {
        let i = out.len() - 5;
        let v = out[i];
        let nv: u8 = if v == 0 {
            255
        } else {
            v - 1
        };
        out[i] = nv;
    }
    *buffer = out;
}

/// Splices the serialized attribute node for `policy_name` into the buffer
/// at `offset` and steps the trailing counter byte (five from the end of
/// the lengthened buffer) up by one, wrapping on overflow.
pub fn insert_policy_bytes(buffer: &mut Vec<u8>, offset: u64, policy_name: &str)
    requires
        offset <= old(buffer)@.len(),
        policy_name.spec_bytes().len() <= 0xFFFF,
        old(buffer)@.len() + 5 + policy_name.spec_bytes().len() <= usize::MAX,
    ensures
        final(buffer)@ == with_trailer_inc(
            old(buffer)@.subrange(0, offset as int) + policy_node_bytes(policy_name.spec_bytes())
                + old(buffer)@.subrange(offset as int, old(buffer)@.len() as int),
        ),
        final(buffer)@.len() == old(buffer)@.len() + 5 + policy_name.spec_bytes().len(),
{
    let len = buffer.len();
    let node = policy_to_bytes(policy_name);
    let off = offset as usize;
    let mut out = slice_to_vec(slice_subrange(buffer.as_slice(), 0, off));
    out.extend_from_slice(node.as_slice());
    out.extend_from_slice(slice_subrange(buffer.as_slice(), off, len));
    if out.len() >= 5 {
        let i = out.len() - 5;
        let v = out[i];
        let nv: u8 = if v == 255 {
            0
        } else {
            v + 1
        };
        out[i] = nv;
    }
    *buffer = out;
}

/// The policy records whose name both appears among the known policy names
/// and equals the requested target, in their original order.
pub open spec fn matching_policies(
    ps: Seq<GPolicy>,
    known: Seq<Seq<char>>,
    target: Seq<char>,
) -> Seq<GPolicy>
    decreases ps.len(),
{
    if ps.len() == 0 {
        Seq::empty()
    } else {
        let front = matching_policies(ps.drop_last(), known, target);
        if known.contains(ps.last().name) && ps.last().name == target {
            front.push(ps.last())
        } else {
            front
        }
    }
}

/// What one patching invocation is to do: delete the bytes of each matching
/// record, or, when no record matches, insert a new attribute node.
pub enum PatchPlan {
    Remove(Vec<Policy>),
    Insert,
}

/// Whether `v` holds a string whose characters equal `s`'s.
fn contains_string(v: &Vec<String>, s: &String) -> (r: bool)
    ensures
        r == v.deep_view().contains(s@),
{
    let mut i: usize = 0;
    while i < v.len()
        invariant
            i <= v@.len(),
            forall|j: int| 0 <= j < i ==> v.deep_view()[j] != s@,
        decreases v@.len() - i,
    {
        if v[i].eq(s) {
            proof {
                assert(v.deep_view()[i as int] == s@);
            }
            return true;
        }
        i = i + 1;
    }
    false
}

/// Decides the patch for `target`: every decoded policy record whose name
/// is a known policy name and equals `target` is to be removed; if there is
/// none, a new attribute node is to be inserted instead.
pub fn plan_patch(policies: &Vec<Policy>, known_names: &Vec<String>, target: &String) -> (r:
    PatchPlan)
    ensures
        ({
            let m = matching_policies(policies.deep_view(), known_names.deep_view(), target@);
            if m.len() > 0 {
                r matches PatchPlan::Remove(v) && v.deep_view() == m
            } else {
                r matches PatchPlan::Insert
            }
        }),
{
    let mut found: Vec<Policy> = Vec::new();
    let mut i: usize = 0;
    while i < policies.len()
        invariant
            i <= policies@.len(),
            found.deep_view() =~= matching_policies(
                policies.deep_view().take(i as int),
                known_names.deep_view(),
                target@,
            ),
        decreases policies@.len() - i,
    {
        let p = &policies[i];
        proof {
            assert(policies.deep_view().take(i + 1 as int).drop_last() =~= policies.deep_view()
                .take(i as int));
            assert(policies.deep_view().take(i + 1 as int).last() == policies.deep_view()[
                i as int]);
        }
        if contains_string(known_names, &p.name) && p.name.eq(target) {
            found.push(p.clone());
            proof {
                assert(found.deep_view() =~= matching_policies(
                    policies.deep_view().take(i + 1 as int),
                    known_names.deep_view(),
                    target@,
                ));
            }
        }
        i = i + 1;
    }
    proof {
        assert(policies.deep_view().take(policies.deep_view().len() as int) =~= policies
            .deep_view());
    }
    if found.len() > 0 {
        PatchPlan::Remove(found)
    } else {
        PatchPlan::Insert
    }
}

} // verus!
