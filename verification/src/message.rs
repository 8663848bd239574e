//! DNS messages: the question of a query, and the making of answers.
//!
//! Messages are read and composed by the `domain` crate.

use crate::bytes::{be16, be32, octet_strings, word_at};
use crate::names::{labels_wire, name_wire, valid_labels, wire_sized};
use domain::base::iana::{Class, Rcode};
use domain::base::message::Message;
use domain::base::message_builder::{AnswerBuilder, AuthorityBuilder, MessageBuilder};
use domain::base::name::{Name, ToLabelIter};
use domain::base::{Serial, Ttl};
use domain::rdata::Soa;
use vstd::prelude::*;

verus! {

/// The question of a query, as a value.
pub struct QuestionView {
    pub labels: Seq<Seq<u8>>,
    pub qtype: u16,
    pub qclass: u16,
}

/// The question of a query: the labels of the name that is asked for, and the
/// type and class of the records.
pub struct Question {
    pub labels: Vec<Vec<u8>>,
    pub qtype: u16,
    pub qclass: u16,
}

impl View for Question {
    type V = QuestionView;

    open spec fn view(&self) -> QuestionView {
        QuestionView {
            labels: octet_strings(self.labels@),
            qtype: self.qtype,
            qclass: self.qclass,
        }
    }
}

/// The wire form of a question.
pub open spec fn question_wire(q: QuestionView) -> Seq<u8> {
    name_wire(q.labels) + be16(q.qtype as int) + be16(q.qclass as int)
}

/// Whether `query` is long enough for a header, which announces one question.
pub open spec fn announces_one_question(query: Seq<u8>) -> bool {
    query.len() >= 12 && word_at(query, 4) == 1
}

/// Whether `labels` are those of a name with its root label behind them.
pub open spec fn is_rooted(labels: Seq<Seq<u8>>) -> bool {
    &&& labels.len() > 0
    &&& labels.last().len() == 0
    &&& valid_labels(labels.drop_last())
}

/// Whether `query` is a message that announces one question and holds `q`
/// uncompressed behind its header.
pub open spec fn holds_question(query: Seq<u8>, q: QuestionView) -> bool {
    &&& announces_one_question(query)
    &&& valid_labels(q.labels)
    &&& question_wire(q).is_prefix_of(query.skip(12))
}

/// The wire form of a pointer to the offset `target`, which stands for the labels
/// of the name there.
pub open spec fn pointer_wire(target: int) -> Seq<u8> {
    seq![(0xc0 + target / 256) as u8, (target % 256) as u8]
}

/// Whether `query` is a message that announces one question and holds `q` behind
/// its header, all but the first `n` labels of the name replaced by a pointer
/// back to `target`, where these stand uncompressed.
pub open spec fn holds_compressed_question(
    query: Seq<u8>,
    q: QuestionView,
    n: int,
    target: int,
) -> bool {
    let own = labels_wire(q.labels.take(n));
    &&& announces_one_question(query)
    &&& valid_labels(q.labels)
    &&& 0 <= n <= q.labels.len()
    &&& 0 <= target < 12 + own.len()
    &&& target < 0x4000
    &&& (own + pointer_wire(target) + be16(q.qtype as int) + be16(q.qclass as int)).is_prefix_of(
        query.skip(12),
    )
    &&& name_wire(q.labels.skip(n)).is_prefix_of(query.skip(target))
}

/// Whether the first question behind the header of `query` cannot be read for
/// what follows its first `labels`: these are too long already, the message ends
/// too soon, or there is neither a label nor a pointer back.
pub open spec fn breaks_off(query: Seq<u8>, labels: Seq<Seq<u8>>) -> bool {
    let own = labels_wire(labels);
    let rest = query.skip(12).skip(own.len() as int);
    &&& query.len() >= 12
    &&& wire_sized(labels)
    &&& own.is_prefix_of(query.skip(12))
    &&& {
        ||| own.len() >= 255
        ||| rest.len() == 0
        ||| rest[0] == 0 && rest.len() < 5
        ||| 1 <= rest[0] <= 63 && rest.len() <= rest[0]
        ||| 64 <= rest[0] < 0xc0
        ||| rest[0] >= 0xc0 && rest.len() < 6
        ||| rest[0] >= 0xc0 && word_at(rest, 0) - 0xc000 >= 12 + own.len()
    }
}

/// Whether `question` is what `query` tells of its one question: what stands
/// there uncompressed, or with one pointer to an uncompressed name, and nothing
/// where the message does not announce one question or breaks off.
pub open spec fn reads_question(query: Seq<u8>, question: Option<QuestionView>) -> bool {
    &&& question is Some ==> announces_one_question(query) && query.len() >= 17
    &&& question matches Some(q) ==> valid_labels(q.labels)
    &&& forall|q: QuestionView| #[trigger] holds_question(query, q) ==> question == Some(q)
    &&& forall|q: QuestionView, n: int, target: int| #[trigger]
        holds_compressed_question(query, q, n, target) ==> question == Some(q)
    &&& forall|labels: Seq<Seq<u8>>| #[trigger] breaks_off(query, labels) ==> question is None
}

/// The view of a question that may be missing.
pub open spec fn as_view(question: Option<Question>) -> Option<QuestionView> {
    match question {
        Some(q) => Some(q@),
        None => None,
    }
}

/// What `domain::base::message::Message::sole_question` finds in a message, the
/// root label counted among the labels of the name.
pub uninterp spec fn parsed_question(query: Seq<u8>) -> Option<QuestionView>;

/// A question that may be missing, without the root label of its name.
pub open spec fn without_root(question: Option<QuestionView>) -> Option<QuestionView> {
    match question {
        Some(q) => Some(
            QuestionView { labels: q.labels.drop_last(), qtype: q.qtype, qclass: q.qclass },
        ),
        None => None,
    }
}

/// The one question of `query`, compressed or not; none where the message is
/// malformed or does not hold exactly one question.
pub open spec fn sole_question_of(query: Seq<u8>) -> Option<QuestionView> {
    without_root(parsed_question(query))
}

/// `domain::base::message::Message::from_slice` and `sole_question`, the labels
/// of the name collected by `iter_labels`.
///
/// The result is a function of the octets alone. There is none where they do not
/// announce exactly one question, or the question breaks off. A question that
/// stands behind the header uncompressed, or with one pointer to an uncompressed
/// name, is found as it stands. What is found is a valid name that ends with its
/// root label. What a pointer leads to that is itself compressed or broken is
/// left to the name of the result.
#[verifier::external_body]
fn read_sole_question(query: &[u8]) -> (r: Option<Question>)
    ensures
        as_view(r) == parsed_question(query@),
        r matches Some(q) ==> is_rooted(q@.labels),
        reads_question(query@, without_root(as_view(r))),
{
    let question = Message::from_slice(query).ok()?.sole_question().ok()?;
    Some(
        Question {
            labels: question.qname().iter_labels().map(|l| l.as_slice().to_vec()).collect(),
            qtype: question.qtype().to_int(),
            qclass: question.qclass().to_int(),
        },
    )
}

/// Reads the one question of a query.
pub fn sole_question(query: &[u8]) -> (r: Option<Question>)
    ensures
        match r {
            Some(q) => sole_question_of(query@) == Some(q@) && valid_labels(q@.labels),
            None => sole_question_of(query@) is None,
        },
        reads_question(query@, sole_question_of(query@)),
{
    match read_sole_question(query) {
        Some(mut question) => {
            let ghost raw = question@;
            let _ = question.labels.pop();
            proof {
                assert(question@.labels == raw.labels.drop_last());
            }
            Some(question)
        },
        None => None,
    }
}

/// `domain::base::message_builder::AnswerBuilder`, known by its octets.
#[verifier::external_type_specification]
#[verifier::external_body]
#[verifier::reject_recursive_types(Target)]
pub struct ExAnswerBuilder<Target>(AnswerBuilder<Target>);

/// `domain::base::message_builder::AuthorityBuilder`, known by its octets.
#[verifier::external_type_specification]
#[verifier::external_body]
#[verifier::reject_recursive_types(Target)]
pub struct ExAuthorityBuilder<Target>(AuthorityBuilder<Target>);

/// The octets that an `AnswerBuilder` has collected.
pub uninterp spec fn answer_octets(builder: AnswerBuilder<Vec<u8>>) -> Seq<u8>;

/// The octets that an `AuthorityBuilder` has collected.
pub uninterp spec fn authority_octets(builder: AuthorityBuilder<Vec<u8>>) -> Seq<u8>;

/// The questions that `domain::base::message::Message::question` yields of a
/// message before it ends or comes to one that cannot be read.
pub uninterp spec fn readable_questions(query: Seq<u8>) -> Seq<QuestionView>;

/// The wire form of a question section.
pub open spec fn questions_wire(questions: Seq<QuestionView>) -> Seq<u8>
    decreases questions.len(),
{
    if questions.len() == 0 {
        seq![]
    } else {
        question_wire(questions[0]) + questions_wire(questions.drop_first())
    }
}

/// Whether the names in `questions` are names.
pub open spec fn valid_questions(questions: Seq<QuestionView>) -> bool {
    forall|i: int| 0 <= i < questions.len() ==> valid_labels((#[trigger] questions[i]).labels)
}

/// Whether `query` is a message that announces as many questions as there are
/// in `questions`, and holds these uncompressed behind its header.
pub open spec fn holds_questions(query: Seq<u8>, questions: Seq<QuestionView>) -> bool {
    &&& query.len() >= 12
    &&& word_at(query, 4) == questions.len()
    &&& valid_questions(questions)
    &&& questions_wire(questions).is_prefix_of(query.skip(12))
}

/// The identifier and flags of an answer to `query`: a response under the
/// identifier, operation and recursion wish of the query, with the given code.
pub open spec fn answer_head(query: Seq<u8>, rcode: u8) -> Seq<u8> {
    seq![query[0], query[1], 0x80u8 | (query[2] & 0x79u8), rcode]
}

/// The section counts of a message.
pub open spec fn counts_wire(questions: int, answers: int, authority: int) -> Seq<u8> {
    be16(questions) + be16(answers) + be16(authority) + be16(0)
}

/// An answer to `query` that echoes `questions` and holds nothing else.
pub open spec fn answer_with(
    query: Seq<u8>,
    rcode: u8,
    questions: Seq<QuestionView>,
) -> Seq<u8> {
    answer_head(query, rcode) + counts_wire(questions.len() as int, 0, 0) + questions_wire(
        questions,
    )
}

/// An answer to `query` that echoes the question `q` and holds no records.
pub open spec fn answer_echo(query: Seq<u8>, rcode: u8, q: QuestionView) -> Seq<u8> {
    answer_head(query, rcode) + counts_wire(1, 0, 0) + question_wire(q)
}

/// Whether `found` are the questions of `query`: no more than it announces, its
/// one question, where it has one, all of its questions, where it holds them
/// uncompressed, and none, where the first breaks off.
pub open spec fn are_questions_of(query: Seq<u8>, found: Seq<QuestionView>) -> bool {
    &&& found.len() <= word_at(query, 4)
    &&& valid_questions(found)
    &&& sole_question_of(query) matches Some(q) ==> found == seq![q]
    &&& forall|q: QuestionView, n: int, target: int| #[trigger]
        holds_compressed_question(query, q, n, target) ==> found == seq![q]
    &&& forall|qs: Seq<QuestionView>| #[trigger] holds_questions(query, qs) ==> found == qs
    &&& forall|labels: Seq<Seq<u8>>| #[trigger] breaks_off(query, labels) ==> found.len() == 0
}

/// The wire form of a section with one question.
pub proof fn lemma_one_question(query: Seq<u8>, rcode: u8, q: QuestionView)
    ensures
        questions_wire(seq![q]) == question_wire(q),
        answer_with(query, rcode, seq![q]) == answer_echo(query, rcode, q),
{
    assert(seq![q].drop_first().len() == 0);
    assert(questions_wire(seq![q].drop_first()) == Seq::<u8>::empty());
    assert(questions_wire(seq![q]) =~= question_wire(q));
}

/// `domain::base::message::Message::from_slice`, then
/// `domain::base::message_builder::MessageBuilder::start_answer` on a new
/// vector.
///
/// An answer is begun for whatever is long enough for a header; anything shorter
/// has no question either. The questions that can be read are counted and
/// written, their names uncompressed, and nothing follows them. Which these are
/// is a function of the octets alone, and is left to a name where the message
/// holds compressed names and more than one question.
#[verifier::external_body]
pub(crate) fn start_answer(query: &[u8], rcode: u8) -> (r: Option<AnswerBuilder<Vec<u8>>>)
    requires
        rcode < 16,
    ensures
        r is Some <==> query@.len() >= 12,
        r is None ==> sole_question_of(query@) is None,
        r matches Some(b) ==> answer_octets(b) == answer_with(
            query@,
            rcode,
            readable_questions(query@),
        ),
        r is Some ==> are_questions_of(query@, readable_questions(query@)),
{
    let message = Message::from_slice(query).ok()?;
    MessageBuilder::new_vec().start_answer(message, Rcode::masked_from_int(rcode)).ok()
}

/// `domain::base::header::Header::set_aa` on the header of a begun answer: sets
/// or clears the bit that marks the answer as authoritative.
#[verifier::external_body]
pub(crate) fn set_authoritative(builder: &mut AnswerBuilder<Vec<u8>>, aa: bool)
    requires
        answer_octets(*old(builder)).len() >= 12,
    ensures
        answer_octets(*final(builder)) == answer_octets(*old(builder)).update(
            2,
            if aa {
                answer_octets(*old(builder))[2] | 0x04u8
            } else {
                answer_octets(*old(builder))[2] & 0xfbu8
            },
        ),
{
    builder.header_mut().set_aa(aa);
}

/// `domain::base::message_builder::AnswerBuilder::authority`: goes on to the
/// authority section and keeps what was collected.
#[verifier::external_body]
pub(crate) fn into_authority(builder: AnswerBuilder<Vec<u8>>) -> (r: AuthorityBuilder<Vec<u8>>)
    ensures
        authority_octets(r) == answer_octets(builder),
{
    builder.authority()
}

/// `domain::base::message_builder::AnswerBuilder::finish`: the octets collected.
#[verifier::external_body]
pub(crate) fn finish_answer(builder: AnswerBuilder<Vec<u8>>) -> (octets: Vec<u8>)
    ensures
        octets@ == answer_octets(builder),
{
    builder.finish()
}

/// `domain::base::message_builder::AuthorityBuilder::finish`: the octets
/// collected.
#[verifier::external_body]
pub(crate) fn finish_authority(builder: AuthorityBuilder<Vec<u8>>) -> (octets: Vec<u8>)
    ensures
        octets@ == authority_octets(builder),
{
    builder.finish()
}

/// A start-of-authority record; names are in wire form.
pub struct SoaRecord {
    pub owner: Vec<u8>,
    pub class: u16,
    pub ttl: u32,
    pub mname: Vec<u8>,
    pub rname: Vec<u8>,
    pub serial: u32,
    pub refresh: u32,
    pub retry: u32,
    pub expire: u32,
    pub minimum: u32,
}

/// Whether `s` is the wire form of a name.
pub open spec fn is_name_wire(s: Seq<u8>) -> bool {
    exists|labels: Seq<Seq<u8>>| #[trigger] valid_labels(labels) && s == name_wire(labels)
}

impl SoaRecord {
    /// Whether the names of the record are names.
    pub open spec fn well_formed(&self) -> bool {
        is_name_wire(self.owner@) && is_name_wire(self.mname@) && is_name_wire(self.rname@)
    }

    /// The data part of the record, on the wire.
    pub open spec fn rdata(&self) -> Seq<u8> {
        self.mname@ + self.rname@ + be32(self.serial as int) + be32(self.refresh as int) + be32(
            self.retry as int,
        ) + be32(self.expire as int) + be32(self.minimum as int)
    }

    /// The record on the wire, under type 6.
    pub open spec fn wire(&self) -> Seq<u8> {
        self.owner@ + be16(6) + be16(self.class as int) + be32(self.ttl as int) + be16(
            self.rdata().len() as int,
        ) + self.rdata()
    }
}

/// `message` with its count of authority records raised by one and `record`
/// behind it.
pub open spec fn with_authority(message: Seq<u8>, record: Seq<u8>) -> Seq<u8> {
    let count = be16(word_at(message, 8) + 1);
    message.update(8, count[0]).update(9, count[1]) + record
}

/// `domain::base::message_builder::AuthorityBuilder::push` of a
/// `domain::rdata::Soa`: the record is appended and counted, names uncompressed,
/// unless the count is at its limit.
#[verifier::external_body]
pub(crate) fn push_soa(
    builder: &mut AuthorityBuilder<Vec<u8>>,
    record: &SoaRecord,
) -> (pushed: bool)
    requires
        authority_octets(*old(builder)).len() >= 12,
        record.well_formed(),
    ensures
        pushed <==> word_at(authority_octets(*old(builder)), 8) != 0xffff,
        pushed ==> authority_octets(*final(builder)) == with_authority(
            authority_octets(*old(builder)),
            record.wire(),
        ),
        !pushed ==> authority_octets(*final(builder)) == authority_octets(*old(builder)),
{
    let Ok(owner) = Name::from_slice(&record.owner) else { return false };
    let Ok(mname) = Name::from_slice(&record.mname) else { return false };
    let Ok(rname) = Name::from_slice(&record.rname) else { return false };
    let refresh = Ttl::from_secs(record.refresh);
    let retry = Ttl::from_secs(record.retry);
    let expire = Ttl::from_secs(record.expire);
    let minimum = Ttl::from_secs(record.minimum);
    let soa = Soa::new(mname, rname, Serial(record.serial), refresh, retry, expire, minimum);
    builder.push((owner, Class::from_int(record.class), Ttl::from_secs(record.ttl), soa)).is_ok()
}

/// How one octet of a label is shown: a space, a dot or a backslash behind a
/// backslash, an octet that cannot be printed as its three decimal digits behind
/// a backslash, and any other as it is.
pub open spec fn shown_octet(b: u8) -> Seq<char> {
    if b == 32 || b == 46 || b == 92 {
        seq!['\\', b as char]
    } else if b < 32 || b >= 127 {
        seq![
            '\\',
            (48 + b / 100) as char,
            (48 + b / 10 % 10) as char,
            (48 + b % 10) as char,
        ]
    } else {
        seq![b as char]
    }
}

/// How a label is shown.
pub open spec fn shown_label(label: Seq<u8>) -> Seq<char>
    decreases label.len(),
{
    if label.len() == 0 {
        seq![]
    } else {
        shown_octet(label[0]) + shown_label(label.drop_first())
    }
}

/// How a name is shown: its labels with dots between them, and nothing for the
/// root.
pub open spec fn shown_name(labels: Seq<Seq<u8>>) -> Seq<char>
    decreases labels.len(),
{
    if labels.len() == 0 {
        seq![]
    } else if labels.len() == 1 {
        shown_label(labels[0])
    } else {
        shown_label(labels[0]) + seq!['.'] + shown_name(labels.drop_first())
    }
}

/// Whether `text` shows the name in the question of `query`, as far as the octets
/// tell it at once.
pub open spec fn shows_question(query: Seq<u8>, text: Option<String>) -> bool {
    &&& forall|q: QuestionView| #[trigger]
        holds_question(query, q) ==> (text matches Some(t) && t@ == shown_name(q.labels))
    &&& forall|q: QuestionView, n: int, target: int| #[trigger]
        holds_compressed_question(query, q, n, target) ==> (text matches Some(t) && t@
            == shown_name(q.labels))
    &&& forall|labels: Seq<Seq<u8>>| #[trigger] breaks_off(query, labels) ==> text is None
}

/// `domain::base::message::Message::from_slice` and `sole_question`, then
/// `to_string` on the name that is asked for: the common display format, without
/// a dot at the end.
#[verifier::external_body]
pub(crate) fn read_question_name(query: &[u8]) -> (text: Option<String>)
    ensures
        text is Some <==> sole_question_of(query@) is Some,
        text matches Some(t) ==> t@ == shown_name((sole_question_of(query@)->0).labels),
        shows_question(query@, text),
{
    Some(Message::from_slice(query).ok()?.sole_question().ok()?.qname().to_string())
}

/// How names are shown: labels with single dots between them, octet by octet, each
/// printable one as it is but for a backslash before a space, a dot or a
/// backslash, and each other one as a backslash and its three decimal digits.
pub proof fn law_names_are_shown_octet_by_octet(
    b: u8,
    label: Seq<u8>,
    other: Seq<u8>,
    labels: Seq<Seq<u8>>,
)
    ensures
        33 <= b <= 126 && b != 46 && b != 92 ==> shown_octet(b) == seq![b as char],
        b == 32 || b == 46 || b == 92 ==> shown_octet(b) == seq!['\\', b as char],
        b < 32 || b > 126 ==> shown_octet(b).len() == 4 && shown_octet(b)[0] == '\\' && (
        shown_octet(b)[1] as int - 48) * 100 + (shown_octet(b)[2] as int - 48) * 10 + (shown_octet(
            b,
        )[3] as int - 48) == b,
        shown_label(seq![b]) == shown_octet(b),
        shown_label(label + other) == shown_label(label) + shown_label(other),
        shown_name(Seq::empty()) == Seq::<char>::empty(),
        shown_name(seq![label]) == shown_label(label),
        labels.len() > 0 ==> shown_name(seq![label] + labels) == shown_label(label) + seq!['.']
            + shown_name(labels),
    decreases label.len(),
{
    assert(seq![b].drop_first() =~= Seq::<u8>::empty());
    assert(shown_label(Seq::<u8>::empty()) =~= Seq::<char>::empty());
    assert(shown_label(seq![b]) =~= shown_octet(b));
    if label.len() == 0 {
        assert(label + other =~= other);
        assert(shown_label(label) + shown_label(other) =~= shown_label(other));
    } else {
        assert((label + other).drop_first() =~= label.drop_first() + other);
        law_names_are_shown_octet_by_octet(b, label.drop_first(), other, labels);
        assert(shown_label(label + other) =~= shown_label(label) + shown_label(other));
    }
    assert((seq![label] + labels).drop_first() =~= labels);
}

} // verus!
