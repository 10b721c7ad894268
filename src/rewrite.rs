//! Rewriting a reply before it is returned to a client.
use crate::message::Message;
use crate::resource_record::{Ipv4Addr, RDataView, RData, RecordView, ResourceRecord};
use vstd::prelude::*;

verus! {

/// The record with an address answer pointed at 127.0.0.1; any other record
/// as it is.
pub open spec fn to_local_host(r: RecordView) -> RecordView {
    match r.data {
        RDataView::A(_) => RecordView { data: RDataView::A(seq![127u8, 0, 0, 1]), ..r },
        _ => r,
    }
}

/// Points every address answer of a reply at the local host, 127.0.0.1;
/// every other part of the message stays as it is.
pub fn modify_response(msg: &mut Message)
    ensures
        final(msg)@.header == old(msg)@.header,
        final(msg)@.questions == old(msg)@.questions,
        final(msg)@.name_servers == old(msg)@.name_servers,
        final(msg)@.additional_records == old(msg)@.additional_records,
        final(msg)@.answers.len() == old(msg)@.answers.len(),
        forall|i: int|
            0 <= i < final(msg)@.answers.len() ==> #[trigger] final(msg)@.answers[i]
                == to_local_host(old(msg)@.answers[i]),
{
    let mut i: usize = 0;
    while i < msg.answers.len()
        invariant
            i <= msg.answers@.len(),
            msg@.header == old(msg)@.header,
            msg@.questions == old(msg)@.questions,
            msg@.name_servers == old(msg)@.name_servers,
            msg@.additional_records == old(msg)@.additional_records,
            msg@.answers.len() == old(msg)@.answers.len(),
            forall|j: int| 0 <= j < i ==> #[trigger] msg@.answers[j] == to_local_host(
                old(msg)@.answers[j],
            ),
            forall|j: int| i <= j < msg@.answers.len() ==> #[trigger] msg@.answers[j] == old(
                msg,
            )@.answers[j],
        decreases msg.answers@.len() - i,
    {
        if let RData::A(_) = msg.answers[i].data {
            let record = ResourceRecord {
                name: msg.answers[i].name.clone(),
                data: RData::A(Ipv4Addr::new(127, 0, 0, 1)),
                class: msg.answers[i].class,
                ttl: msg.answers[i].ttl,
            };
            let ghost before = msg@.answers;
            assert(record@ == to_local_host(before[i as int])) by {
                assert(record.data@ =~= RDataView::A(seq![127u8, 0, 0, 1]));
            }
            msg.answers[i] = record;
            assert(msg@.answers =~= before.update(i as int, record@));
        }
        i = i + 1;
    }
}

} // verus!
