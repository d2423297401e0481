//! Properties that hold of every AVP and every message.
use vstd::prelude::*;
use crate::message::{encode_message, message_at, message_valid, MessageModel};
use crate::model::{
    avp_at, avp_valid, avp_wf, avps_wf, encode_avp, encode_avps, lemma_avp_unique,
    lemma_encode_avp_len, AvpModel, AvpType,
};
use crate::wire::padding_for;

verus! {

/// The octets that the AVPs of a sequence fill: each one's length plus its padding.
pub open spec fn avps_wire_len(s: Seq<AvpModel>) -> int
    decreases s.len(),
{
    if s.len() == 0 {
        0
    } else {
        s[0].length + padding_for(s[0].length as int) + avps_wire_len(s.subrange(1, s.len() as int))
    }
}

/// Every encoded AVP fills a multiple of four octets.
pub proof fn law_avp_aligned(m: AvpModel)
    requires
        avp_wf(m),
    ensures
        encode_avp(m).len() % 4 == 0,
{
    lemma_encode_avp_len(m);
}

/// The octets of a sequence of AVPs (the value of a grouped AVP) number the sum, over the
/// AVPs, of each one's length plus its padding.
pub proof fn law_grouped_len(s: Seq<AvpModel>)
    requires
        avps_wf(s),
    ensures
        encode_avps(s).len() == avps_wire_len(s),
    decreases s.len(),
{
    if s.len() > 0 {
        let rest = s.subrange(1, s.len() as int);
        assert(avps_wf(rest)) by {
            assert forall|i: int| 0 <= i < rest.len() implies avp_wf(#[trigger] rest[i]) by {
                assert(rest[i] == s[i + 1]);
            }
        }
        lemma_encode_avp_len(s[0]);
        law_grouped_len(rest);
    }
}

/// Decoding what was encoded gives back the AVP: a valid AVP is written at the start of its
/// own encoding, and no other valid AVP is, so `Avp::decode_from` returns it.
pub proof fn law_avp_round_trip(m: AvpModel, d: Map<(u32, Option<u32>), AvpType>)
    requires
        avp_valid(m, d, false),
    ensures
        avp_at(encode_avp(m), 0, encode_avp(m).len() as int, m),
        forall|m2: AvpModel|
            avp_valid(m2, d, false) && avp_at(encode_avp(m), 0, encode_avp(m).len() as int, m2)
                ==> m2 == m,
{
    let x = encode_avp(m);
    assert(x.subrange(0, x.len() as int) =~= x);
    assert forall|m2: AvpModel|
        avp_valid(m2, d, false) && avp_at(x, 0, x.len() as int, m2) implies m2 == m by {
        lemma_avp_unique(m2, m, d, false, x);
    }
}

/// Decoding what was encoded gives back the message: a valid message is written at the start
/// of its own encoding, so `DiameterMessage::decode_from` returns it.
pub proof fn law_message_round_trip(mm: MessageModel, d: Map<(u32, Option<u32>), AvpType>)
    requires
        message_valid(mm, d),
    ensures
        message_at(encode_message(mm), mm),
{
    let x = encode_message(mm);
    assert(x.subrange(0, x.len() as int) =~= x);
}

} // verus!
