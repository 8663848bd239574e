//! What the answers of the proxy hold, octet by octet.

use crate::bytes::law_numbers_in_network_order;
use crate::message::{
    answer_echo, answer_with, as_view, counts_wire, question_wire, questions_wire,
    readable_questions, without_root, Question, QuestionView,
};
use crate::names::name_wire;
use crate::proxy::{null_response, octets_view, servfail_response, with_id_of};
use vstd::prelude::*;

verus! {

/// A question is seen with the labels, the type and the class that it has, and a
/// question without its root label lacks nothing else.
pub proof fn law_questions_are_seen_as_they_are(question: Question, q: QuestionView)
    ensures
        question@.labels.len() == question.labels@.len(),
        forall|i: int|
            0 <= i < question.labels@.len() ==> #[trigger] question@.labels[i]
                == question.labels@[i]@,
        question@.qtype == question.qtype,
        question@.qclass == question.qclass,
        as_view(Some(question)) == Some(question@),
        as_view(None) is None,
        without_root(None) is None,
        without_root(Some(q)) == Some(
            QuestionView { labels: q.labels.drop_last(), qtype: q.qtype, qclass: q.qclass },
        ),
{
}

/// Octets that may be missing are seen as they are.
pub proof fn law_octets_are_seen_as_they_are(octets: Vec<u8>)
    ensures
        octets_view(Some(octets)) == Some(octets@),
        octets_view(None) is None,
{
}

/// A question on the wire is its name, its type and its class, and a section is
/// its questions in order.
pub proof fn law_wire_form_of_questions(q: QuestionView, rest: Seq<QuestionView>)
    ensures
        question_wire(q) == name_wire(q.labels) + seq![
            (q.qtype / 256) as u8,
            (q.qtype % 256) as u8,
            (q.qclass / 256) as u8,
            (q.qclass % 256) as u8,
        ],
        questions_wire(Seq::empty()) == Seq::<u8>::empty(),
        questions_wire(seq![q] + rest) == question_wire(q) + questions_wire(rest),
{
    assert(question_wire(q) =~= name_wire(q.labels) + seq![
        (q.qtype / 256) as u8,
        (q.qtype % 256) as u8,
        (q.qclass / 256) as u8,
        (q.qclass % 256) as u8,
    ]);
    assert((seq![q] + rest).drop_first() =~= rest);
    assert((seq![q] + rest)[0] == q);
}

/// An answer to a blocked query, whatever the type and class of its question: the
/// identifier of the query, an authoritative response with the operation and the
/// recursion wish of the query, response code 3, one question, no answer, one
/// authority record and nothing else; then the question, and an empty start of
/// authority of its name that is kept for a second.
#[verifier::spinoff_prover]
#[verifier::rlimit(60)]
pub proof fn law_blocked_answer_octets(query: Seq<u8>, q: QuestionView)
    ensures
        ({
            let r = null_response(query, q);
            let name = name_wire(q.labels);
            let n = name.len() as int;
            &&& r.len() == 12 + (n + 4) + (n + 32)
            &&& r[0] == query[0]
            &&& r[1] == query[1]
            &&& r[2] & 0x80u8 == 0x80
            &&& r[2] & 0x04u8 == 0x04
            &&& r[2] & 0x02u8 == 0
            &&& r[2] & 0x79u8 == query[2] & 0x79u8
            &&& r[3] == 3
            &&& r[3] % 16 == 3
            &&& r.subrange(4, 12) == seq![0u8, 1, 0, 0, 0, 1, 0, 0]
            &&& r.subrange(12, 12 + n) == name
            &&& r[12 + n] * 256 + r[13 + n] == q.qtype
            &&& r[14 + n] * 256 + r[15 + n] == q.qclass
            &&& r.subrange(12, 16 + n) == question_wire(q)
            &&& r.subrange(16 + n, 16 + 2 * n) == name
            &&& r.skip(16 + 2 * n) == seq![
                0u8, 6, 0, 1, 0, 0, 0, 1, 0, 22, 0, 0, 0, 0, 0, 0, 0, 0, 0, 0, 0, 0, 0, 0, 0, 0, 0,
                0, 0, 0, 0, 1,
            ]
        }),
{
    let r = null_response(query, q);
    let name = name_wire(q.labels);
    let n = name.len() as int;
    let b = query[2];
    law_numbers_in_network_order(q.qtype as int, 0, r, 0);
    law_numbers_in_network_order(q.qclass as int, 0, r, 0);
    let flags = 0x84u8 | (b & 0x79u8);
    assert(flags & 0x80u8 == 0x80 && flags & 0x04u8 == 0x04 && flags & 0x02u8 == 0 && flags & 0x79u8
        == b & 0x79u8) by (bit_vector)
        requires
            flags == 0x84u8 | (b & 0x79u8),
    ;
    assert(r[2] == flags);
    assert(r.subrange(4, 12) =~= seq![0u8, 1, 0, 0, 0, 1, 0, 0]);
    assert(r.subrange(12, 12 + n) =~= name);
    assert(r.subrange(12, 16 + n) =~= question_wire(q));
    assert(question_wire(q)[n] == r[12 + n]);
    assert(question_wire(q)[n + 1] == r[13 + n]);
    assert(question_wire(q)[n + 2] == r[14 + n]);
    assert(question_wire(q)[n + 3] == r[15 + n]);
    assert(r.subrange(16 + n, 16 + 2 * n) =~= name);
    assert(r.skip(16 + 2 * n) =~= seq![
        0u8, 6, 0, 1, 0, 0, 0, 1, 0, 22, 0, 0, 0, 0, 0, 0, 0, 0, 0, 0, 0, 0, 0, 0, 0, 0, 0, 0, 0, 0,
        0, 1,
    ]);
}

/// An answer that only echoes: the identifier of the query, a response that is
/// not authoritative with the operation and the recursion wish of the query, the
/// response code, the number of the questions and no records; then the questions.
pub proof fn law_echoing_answer_octets(query: Seq<u8>, rcode: u8, questions: Seq<QuestionView>)
    requires
        questions.len() <= 65535,
    ensures
        ({
            let r = answer_with(query, rcode, questions);
            &&& r.len() == 12 + questions_wire(questions).len()
            &&& r[0] == query[0]
            &&& r[1] == query[1]
            &&& r[2] & 0x80u8 == 0x80
            &&& r[2] & 0x06u8 == 0
            &&& r[2] & 0x79u8 == query[2] & 0x79u8
            &&& r[3] == rcode
            &&& r[4] * 256 + r[5] == questions.len()
            &&& r.subrange(6, 12) == seq![0u8, 0, 0, 0, 0, 0]
            &&& r.skip(12) == questions_wire(questions)
        }),
{
    let r = answer_with(query, rcode, questions);
    let b = query[2];
    let flags = 0x80u8 | (b & 0x79u8);
    assert(flags & 0x80u8 == 0x80 && flags & 0x06u8 == 0 && flags & 0x79u8 == b & 0x79u8)
        by (bit_vector)
        requires
            flags == 0x80u8 | (b & 0x79u8),
    ;
    assert(r[2] == flags);
    law_numbers_in_network_order(questions.len() as int, 0, r, 0);
    assert(r[4] == counts_wire(questions.len() as int, 0, 0)[0]);
    assert(r[5] == counts_wire(questions.len() as int, 0, 0)[1]);
    assert(r.subrange(6, 12) =~= seq![0u8, 0, 0, 0, 0, 0]);
    assert(r.skip(12) =~= questions_wire(questions));
}

/// An answer to a query that could not be forwarded has response code 2 and echoes
/// the questions of the query that can be read, and nothing else; a single
/// question is echoed like any other number of them.
pub proof fn law_servfail_answer_octets(query: Seq<u8>, q: QuestionView, rcode: u8)
    ensures
        servfail_response(query) == answer_with(query, 2, readable_questions(query)),
        answer_echo(query, rcode, q) == answer_with(query, rcode, seq![q]),
{
    crate::message::lemma_one_question(query, rcode, q);
}

/// A response under the identifier of a request has its length and every octet
/// but the first two; these are the request's where both have them, and the
/// response's own otherwise.
pub proof fn law_only_the_identifier_changes(request: Seq<u8>, response: Seq<u8>)
    ensures
        with_id_of(request, response).len() == response.len(),
        forall|i: int|
            2 <= i < response.len() ==> #[trigger] with_id_of(request, response)[i] == response[i],
        request.len() >= 2 && response.len() >= 2 ==> with_id_of(request, response)[0]
            == request[0] && with_id_of(request, response)[1] == request[1],
        request.len() < 2 || response.len() < 2 ==> with_id_of(request, response) == response,
{
}

} // verus!
