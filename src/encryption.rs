use crate::error::IggyError;
use crate::partition::{Message, MessageInput, MessageView, PolledMessage, PolledMessages, inputs, message_views};
use vstd::prelude::*;

verus! {

/// The view of what an encryptor returned for each payload: the resulting
/// bytes, or `None` where it failed.
pub open spec fn outcome_views(rs: Seq<Option<Vec<u8>>>) -> Seq<Option<Seq<u8>>> {
    rs.map_values(
        |o: Option<Vec<u8>>|
            match o {
                Some(v) => Some(v@),
                None => None,
            },
    )
}

/// Every payload has a result.
pub open spec fn all_done(rs: Seq<Option<Seq<u8>>>) -> bool {
    forall|i: int| 0 <= i < rs.len() ==> (#[trigger] rs[i]) is Some
}

/// What a batch is stored as: the batch itself when encryption is off; with
/// the ciphertexts of its payloads, each in place of its payload; `None`
/// when a payload could not be encrypted.
pub open spec fn to_store(ciphertexts: Option<Seq<Option<Seq<u8>>>>, ms: Seq<MessageInput>) -> Option<
    Seq<MessageInput>,
> {
    match ciphertexts {
        None => Some(ms),
        Some(cs) => if all_done(cs) {
            Some(Seq::new(ms.len(), |i: int| MessageInput { id: ms[i].id, payload: cs[i]->Some_0 }))
        } else {
            None
        },
    }
}

/// Polled messages with each payload replaced by its plaintext.
pub open spec fn decrypted_views(ms: Seq<MessageView>, ps: Seq<Option<Seq<u8>>>) -> Seq<MessageView> {
    Seq::new(ms.len(), |i: int| MessageView { payload: ps[i]->Some_0, ..ms[i] })
}

/// Puts the ciphertexts of a batch in place of its payloads before the batch
/// is appended. A payload that could not be encrypted (`None`) fails the
/// whole batch with `CannotEncryptData`.
pub fn apply_ciphertexts(messages: &Vec<Message>, ciphertexts: Vec<Option<Vec<u8>>>) -> (r: Result<
    Vec<Message>,
    IggyError,
>)
    requires
        ciphertexts@.len() == messages@.len(),
    ensures
        to_store(Some(outcome_views(ciphertexts@)), inputs(messages@)) matches Some(s) ==> r is Ok
            && inputs(r->Ok_0@) == s,
        to_store(Some(outcome_views(ciphertexts@)), inputs(messages@)) is None ==> r == Err::<
            Vec<Message>,
            IggyError,
        >(IggyError::CannotEncryptData),
{
    let ghost ms = inputs(messages@);
    let ghost cs = outcome_views(ciphertexts@);
    let mut pending = ciphertexts;
    let mut out: Vec<Message> = Vec::new();
    let mut i: usize = 0;
    let n = messages.len();
    while i < n
        invariant
            n == messages@.len(),
            ms == inputs(messages@),
            cs.len() == n,
            cs == outcome_views(ciphertexts@),
            i <= n,
            outcome_views(pending@) == cs.skip(i as int),
            out@.len() == i,
            forall|j: int| 0 <= j < i ==> (#[trigger] cs[j]) is Some,
            forall|j: int|
                0 <= j < i ==> (#[trigger] out@[j])@ == (MessageInput {
                    id: ms[j].id,
                    payload: cs[j]->Some_0,
                }),
        decreases n - i,
    {
        let ghost before = pending@;
        assert(outcome_views(before).len() == before.len());
        let c = pending.remove(0);
        proof {
            assert(outcome_views(before)[0] == cs[i as int]);
            assert(pending@ == before.remove(0));
            assert forall|j: int| 0 <= j < pending@.len() implies #[trigger] outcome_views(pending@)[j]
                == cs.skip(i + 1)[j] by {
                assert(pending@[j] == before[j + 1]);
                assert(outcome_views(before)[j + 1] == cs.skip(i as int)[j + 1]);
            }
            assert(outcome_views(pending@) =~= cs.skip(i + 1));
            assert(ms[i as int] == messages@[i as int]@);
        }
        match c {
            None => {
                assert(cs[i as int] is None);
                return Err(IggyError::CannotEncryptData);
            },
            Some(payload) => {
                out.push(Message { id: messages[i].id, payload });
            },
        }
        i += 1;
    }
    proof {
        assert(inputs(out@) =~= Seq::new(
            ms.len(),
            |j: int| MessageInput { id: ms[j].id, payload: cs[j]->Some_0 },
        ));
    }
    Ok(out)
}

/// Puts the plaintexts of polled messages in place of their payloads. A
/// message that could not be decrypted (`None`) fails the whole poll with
/// `CannotDecryptData`: no partial result.
pub fn decrypt_polled(polled: PolledMessages, plaintexts: Vec<Option<Vec<u8>>>) -> (r: Result<
    PolledMessages,
    IggyError,
>)
    requires
        plaintexts@.len() == polled.messages@.len(),
    ensures
        !all_done(outcome_views(plaintexts@)) ==> r == Err::<PolledMessages, IggyError>(
            IggyError::CannotDecryptData,
        ),
        all_done(outcome_views(plaintexts@)) ==> {
            &&& r is Ok
            &&& r->Ok_0.partition_id == polled.partition_id
            &&& r->Ok_0.current_offset == polled.current_offset
            &&& message_views(r->Ok_0.messages@) == decrypted_views(
                message_views(polled.messages@),
                outcome_views(plaintexts@),
            )
        },
{
    let ghost ps = outcome_views(plaintexts@);
    let ghost ms = message_views(polled.messages@);
    let PolledMessages { partition_id, current_offset, messages } = polled;
    let mut pending = plaintexts;
    let mut out: Vec<PolledMessage> = Vec::new();
    let mut i: usize = 0;
    let n = messages.len();
    while i < n
        invariant
            n == messages@.len(),
            ms == message_views(messages@),
            ps.len() == n,
            ps == outcome_views(plaintexts@),
            i <= n,
            outcome_views(pending@) == ps.skip(i as int),
            out@.len() == i,
            forall|j: int| 0 <= j < i ==> (#[trigger] ps[j]) is Some,
            forall|j: int|
                0 <= j < i ==> (#[trigger] out@[j])@ == (MessageView {
                    payload: ps[j]->Some_0,
                    ..ms[j]
                }),
        decreases n - i,
    {
        let ghost before = pending@;
        assert(outcome_views(before).len() == before.len());
        let p = pending.remove(0);
        proof {
            assert(outcome_views(before)[0] == ps[i as int]);
            assert(pending@ == before.remove(0));
            assert forall|j: int| 0 <= j < pending@.len() implies #[trigger] outcome_views(pending@)[j]
                == ps.skip(i + 1)[j] by {
                assert(pending@[j] == before[j + 1]);
                assert(outcome_views(before)[j + 1] == ps.skip(i as int)[j + 1]);
            }
            assert(outcome_views(pending@) =~= ps.skip(i + 1));
            assert(ms[i as int] == messages@[i as int]@);
        }
        match p {
            None => {
                assert(ps[i as int] is None);
                return Err(IggyError::CannotDecryptData);
            },
            Some(payload) => {
                let m = &messages[i];
                out.push(
                    PolledMessage { id: m.id, offset: m.offset, timestamp: m.timestamp, payload },
                );
            },
        }
        i += 1;
    }
    assert(message_views(out@) =~= decrypted_views(ms, ps));
    Ok(PolledMessages { partition_id, current_offset, messages: out })
}

} // verus!
