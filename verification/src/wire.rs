//! The wire format: a query as bytes, and the bytes of a reply as header,
//! questions and resource records.

use crate::message::{
    address_view, questions_view, records_view, Header, IpAddr, IpAddrView, Question,
    QuestionView, Resource, ResourceView, Response, ResponseView, TYPE_A, TYPE_AAAA, TYPE_NS,
};
use crate::text::{format_ipv4, format_ipv6, ipv4_text, ipv6_text, push_char};
use vstd::prelude::*;

verus! {

/// The length of the header at the start of every message.
pub const HEADER_LEN: usize = 12;

/// The sixteen-bit number whose two bytes stand at `at`, high byte first.
pub open spec fn be16(bytes: Seq<u8>, at: int) -> u16 {
    (bytes[at] as int * 256 + bytes[at + 1] as int) as u16
}

/// The thirty-two-bit number whose four bytes stand at `at`, high byte
/// first.
pub open spec fn be32(bytes: Seq<u8>, at: int) -> u32 {
    (be16(bytes, at) as int * 65536 + be16(bytes, at + 2) as int) as u32
}

/// The header that the first twelve bytes of a message hold, if the
/// message is that long.
pub open spec fn header_at(message: Seq<u8>) -> Option<Header> {
    if message.len() < HEADER_LEN {
        None
    } else {
        Some(
            Header {
                id: be16(message, 0),
                flags: be16(message, 2),
                qd_count: be16(message, 4),
                an_count: be16(message, 6),
                ns_count: be16(message, 8),
                ar_count: be16(message, 10),
            },
        )
    }
}

fn read_u16(bytes: &[u8], at: usize) -> (value: u16)
    requires
        at + 2 <= bytes.len(),
    ensures
        value == be16(bytes@, at as int),
{
    bytes[at] as u16 * 256 + bytes[at + 1] as u16
}

fn read_u32(bytes: &[u8], at: usize) -> (value: u32)
    requires
        at + 4 <= bytes.len(),
    ensures
        value == be32(bytes@, at as int),
{
    read_u16(bytes, at) as u32 * 65536 + read_u16(bytes, at + 2) as u32
}

/// Reads the header of a message. There is one exactly when the message
/// has at least twelve bytes.
pub fn decode_header(message: &[u8]) -> (header: Option<Header>)
    ensures
        header == header_at(message@),
{
    if message.len() < HEADER_LEN {
        return None;
    }
    Some(
        Header {
            id: read_u16(message, 0),
            flags: read_u16(message, 2),
            qd_count: read_u16(message, 4),
            an_count: read_u16(message, 6),
            ns_count: read_u16(message, 8),
            ar_count: read_u16(message, 10),
        },
    )
}

/// Where a compression pointer with the given two bytes points: the low
/// fourteen bits of the pair.
pub open spec fn pointer_target(first: u8, second: u8) -> int {
    (first - 0xc0) * 256 + second
}

/// The labels of the name that starts at `pos`, and the position just after
/// the name where it stands. A name is a run of labels, each a length of
/// at most 63 and that many bytes, ended by a zero length or by a pointer
/// to where the rest of the name stands. A pointer must point before
/// `limit`, which is where the part of the name being read began: so a name
/// that runs in a circle has no labels at all.
pub open spec fn labels_at(message: Seq<u8>, pos: int, limit: int) -> Option<(Seq<Seq<u8>>, int)>
    decreases limit, message.len() - pos,
{
    if pos < 0 || pos >= message.len() {
        None
    } else if message[pos] == 0 {
        Some((Seq::empty(), pos + 1))
    } else if message[pos] >= 0xc0 {
        if pos + 1 >= message.len() {
            None
        } else {
            let target = pointer_target(message[pos], message[pos + 1]);
            if target >= limit {
                None
            } else {
                match labels_at(message, target, target) {
                    Some((labels, _)) => Some((labels, pos + 2)),
                    None => None,
                }
            }
        }
    } else if message[pos] > 63 {
        None
    } else {
        let end = pos + 1 + message[pos];
        if end > message.len() {
            None
        } else {
            match labels_at(message, end, limit) {
                Some((rest, after)) => Some((seq![message.subrange(pos + 1, end)] + rest, after)),
                None => None,
            }
        }
    }
}

/// A label as text: each byte as the character with that code.
pub open spec fn label_text(label: Seq<u8>) -> Seq<char> {
    Seq::new(label.len(), |i: int| label[i] as char)
}

/// Labels as one name: their texts with a dot between them, and no dot at
/// the end. The root, which has no labels, is the empty text.
pub open spec fn dotted(labels: Seq<Seq<u8>>) -> Seq<char>
    decreases labels.len(),
{
    if labels.len() == 0 {
        Seq::empty()
    } else if labels.len() == 1 {
        label_text(labels[0])
    } else {
        dotted(labels.drop_last()) + seq!['.'] + label_text(labels.last())
    }
}

/// The name that starts at `pos` as text, and the position just after it.
pub open spec fn name_at(message: Seq<u8>, pos: int) -> Option<(Seq<char>, int)> {
    match labels_at(message, pos, pos) {
        Some((labels, end)) => Some((dotted(labels), end)),
        None => None,
    }
}

/// A decoded text with the position after it, as contracts see it.
pub open spec fn text_view(decoded: Option<(String, usize)>) -> Option<(Seq<char>, int)> {
    match decoded {
        Some((text, end)) => Some((text@, end as int)),
        None => None,
    }
}

/// Reads the name that starts at `start`, following compression pointers.
pub fn decode_name(message: &[u8], start: usize) -> (decoded: Option<(String, usize)>)
    ensures
        text_view(decoded) == name_at(message@, start as int),
{
    if start >= message.len() {
        return None;
    }
    let mut text = String::new();
    let mut pos: usize = start;
    let mut limit: usize = start;
    let mut end: Option<usize> = None;
    let mut any: bool = false;
    let ghost mut labels: Seq<Seq<u8>> = Seq::empty();
    loop
        invariant
            pos <= message@.len(),
            limit <= start < message@.len(),
            end matches Some(e) ==> e <= message@.len(),
            any == (labels.len() > 0),
            text@ == dotted(labels),
            labels_at(message@, start as int, start as int) == (match labels_at(
                message@,
                pos as int,
                limit as int,
            ) {
                Some((rest, after)) => Some(
                    (
                        labels + rest,
                        match end {
                            Some(e) => e as int,
                            None => after,
                        },
                    ),
                ),
                None => None,
            }),
        decreases limit, message@.len() - pos,
    {
        if pos >= message.len() {
            return None;
        }
        let first: u8 = message[pos];
        if first == 0 {
            let after: usize = match end {
                Some(e) => e,
                None => pos + 1,
            };
            return Some((text, after));
        } else if first >= 0xc0 {
            if pos + 1 >= message.len() {
                return None;
            }
            let target: usize = (first - 0xc0) as usize * 256 + message[pos + 1] as usize;
            if target >= limit {
                return None;
            }
            if end.is_none() {
                end = Some(pos + 2);
            }
            pos = target;
            limit = target;
        } else if first > 63 {
            return None;
        } else {
            if first as usize > message.len() - pos - 1 {
                return None;
            }
            let next: usize = pos + 1 + first as usize;
            let ghost label = message@.subrange(pos + 1, next as int);
            if any {
                push_char(&mut text, '.');
            }
            let ghost prefix = text@;
            let mut k: usize = pos + 1;
            while k < next
                invariant
                    pos + 1 <= k <= next <= message@.len(),
                    label == message@.subrange(pos + 1, next as int),
                    text@ == prefix + label_text(label.subrange(0, k - pos - 1)),
                decreases next - k,
            {
                push_char(&mut text, message[k] as char);
                k += 1;
            }
            proof {
                let grown = labels.push(label);
                assert(grown.drop_last() =~= labels);
                labels = grown;
            }
            pos = next;
            any = true;
        }
    }
}

/// The question that starts at `pos`, and the position just after it: a
/// name, then the record type and the class, two bytes each.
pub open spec fn question_at(message: Seq<u8>, pos: int) -> Option<(QuestionView, int)> {
    match name_at(message, pos) {
        None => None,
        Some((name, fixed)) => if fixed + 4 > message.len() {
            None
        } else {
            Some(
                (
                    QuestionView {
                        name,
                        qtype: be16(message, fixed),
                        qclass: be16(message, fixed + 2),
                    },
                    fixed + 4,
                ),
            )
        },
    }
}

/// The `count` questions that stand one after the other from `pos` on, and
/// the position just after the last.
pub open spec fn questions_at(message: Seq<u8>, pos: int, count: nat) -> Option<
    (Seq<QuestionView>, int),
>
    decreases count,
{
    if count == 0 {
        Some((Seq::empty(), pos))
    } else {
        match questions_at(message, pos, (count - 1) as nat) {
            None => None,
            Some((earlier, next)) => match question_at(message, next) {
                None => None,
                Some((question, after)) => Some((earlier.push(question), after)),
            },
        }
    }
}

proof fn lemma_questions_stay_missing(message: Seq<u8>, pos: int, fewer: nat, count: nat)
    requires
        fewer <= count,
        questions_at(message, pos, fewer) is None,
    ensures
        questions_at(message, pos, count) is None,
    decreases count,
{
    if fewer < count {
        lemma_questions_stay_missing(message, pos, fewer, (count - 1) as nat);
    }
}

/// Reads the question that starts at `start`; with it comes the position
/// just after it.
pub fn decode_question(message: &[u8], start: usize) -> (decoded: Option<(Question, usize)>)
    ensures
        decoded is Some <==> question_at(message@, start as int) is Some,
        decoded matches Some((question, after)) ==> question_at(message@, start as int) == Some(
            (question@, after as int),
        ),
{
    match decode_name(message, start) {
        None => None,
        Some((name, fixed)) => {
            if fixed > message.len() || message.len() - fixed < 4 {
                return None;
            }
            let question = Question {
                name,
                qtype: read_u16(message, fixed),
                qclass: read_u16(message, fixed + 2),
            };
            Some((question, fixed + 4))
        },
    }
}

/// Reads `count` questions from `start` on. With them comes the number of
/// bytes that they take up, so that what follows them can be found.
pub fn decode_questions(message: &[u8], start: usize, count: u16) -> (decoded: Option<
    (Vec<Question>, usize),
>)
    ensures
        decoded is Some <==> questions_at(message@, start as int, count as nat) is Some,
        decoded matches Some((questions, consumed)) ==> questions_at(
            message@,
            start as int,
            count as nat,
        ) == Some((questions_view(questions@), start + consumed)),
{
    let mut questions: Vec<Question> = Vec::new();
    let mut pos: usize = start;
    let mut done: u16 = 0;
    while done < count
        invariant
            done <= count,
            start <= pos,
            questions_at(message@, start as int, done as nat) == Some(
                (questions_view(questions@), pos as int),
            ),
        decreases count - done,
    {
        match decode_question(message, pos) {
            None => {
                proof {
                    lemma_questions_stay_missing(
                        message@,
                        start as int,
                        (done + 1) as nat,
                        count as nat,
                    );
                }
                return None;
            },
            Some((question, after)) => {
                questions.push(question);
                proof {
                    lemma_name_ends_later(message@, pos as int);
                }
                pos = after;
                done += 1;
            },
        }
    }
    Some((questions, pos - start))
}

/// A name takes up at least one byte.
pub proof fn lemma_name_ends_later(message: Seq<u8>, pos: int)
    ensures
        name_at(message, pos) matches Some((_, end)) ==> pos < end <= message.len(),
{
    lemma_labels_end_later(message, pos, pos);
}

proof fn lemma_labels_end_later(message: Seq<u8>, pos: int, limit: int)
    ensures
        labels_at(message, pos, limit) matches Some((_, end)) ==> pos < end <= message.len(),
    decreases limit, message.len() - pos,
{
    if pos < 0 || pos >= message.len() || message[pos] == 0 {
    } else if message[pos] >= 0xc0 {
        if pos + 1 < message.len() {
            let target = pointer_target(message[pos], message[pos + 1]);
            if target < limit {
                lemma_labels_end_later(message, target, target);
            }
        }
    } else if message[pos] <= 63 {
        let end = pos + 1 + message[pos];
        if end <= message.len() {
            lemma_labels_end_later(message, end, limit);
        }
    }
}

/// The eight groups of the IPv6 address whose sixteen bytes stand at `at`.
pub open spec fn groups_at(message: Seq<u8>, at: int) -> Seq<u16> {
    Seq::new(8, |i: int| be16(message, at + 2 * i))
}

/// The address in the data of a record: an IPv4 address where the record
/// is of type A and its data four bytes long, an IPv6 address where it is
/// of type AAAA and its data sixteen bytes long, and none otherwise.
pub open spec fn address_at(message: Seq<u8>, rr_type: u16, data: int, len: int) -> Option<
    IpAddrView,
> {
    if rr_type == TYPE_A && len == 4 {
        Some(IpAddrView::V4(ipv4_text(message.subrange(data, data + 4))))
    } else if rr_type == TYPE_AAAA && len == 16 {
        Some(IpAddrView::V6(ipv6_text(groups_at(message, data))))
    } else {
        None
    }
}

/// The resource record that starts at `pos`, and the position just after
/// it: a name, the record type, the class, the time to live, the length of
/// the data, and the data. A delegation's data is the name of the
/// nameserver and nothing else.
pub open spec fn resource_at(message: Seq<u8>, pos: int) -> Option<(ResourceView, int)> {
    match name_at(message, pos) {
        None => None,
        Some((name, fixed)) => if fixed + 10 > message.len() {
            None
        } else {
            let rr_type = be16(message, fixed);
            let data = fixed + 10;
            let end = data + be16(message, fixed + 8);
            let record = ResourceView {
                name,
                rr_type,
                class: be16(message, fixed + 2),
                ttl: be32(message, fixed + 4),
                nsdname: Seq::empty(),
                address: address_at(message, rr_type, data, end - data),
            };
            if end > message.len() {
                None
            } else if rr_type == TYPE_NS {
                match name_at(message, data) {
                    None => None,
                    Some((nsdname, after)) => if after == end {
                        Some((ResourceView { nsdname, ..record }, end))
                    } else {
                        None
                    },
                }
            } else {
                Some((record, end))
            }
        },
    }
}

/// The `count` resource records that stand one after the other from `pos`
/// on, and the position just after the last.
pub open spec fn resources_at(message: Seq<u8>, pos: int, count: nat) -> Option<
    (Seq<ResourceView>, int),
>
    decreases count,
{
    if count == 0 {
        Some((Seq::empty(), pos))
    } else {
        match resources_at(message, pos, (count - 1) as nat) {
            None => None,
            Some((earlier, next)) => match resource_at(message, next) {
                None => None,
                Some((record, after)) => Some((earlier.push(record), after)),
            },
        }
    }
}

proof fn lemma_resources_stay_missing(message: Seq<u8>, pos: int, fewer: nat, count: nat)
    requires
        fewer <= count,
        resources_at(message, pos, fewer) is None,
    ensures
        resources_at(message, pos, count) is None,
    decreases count,
{
    if fewer < count {
        lemma_resources_stay_missing(message, pos, fewer, (count - 1) as nat);
    }
}

/// As many records as were asked for, when there are any.
pub proof fn lemma_resources_count(message: Seq<u8>, pos: int, count: nat)
    ensures
        resources_at(message, pos, count) matches Some((records, _)) ==> records.len() == count,
    decreases count,
{
    if count > 0 {
        lemma_resources_count(message, pos, (count - 1) as nat);
    }
}

fn decode_address(message: &[u8], rr_type: u16, data: usize, len: usize) -> (address: Option<
    IpAddr,
>)
    requires
        data + len <= message.len(),
    ensures
        address_view(address) == address_at(
            message@,
            rr_type,
            data as int,
            len as int,
        ),
{
    if rr_type == TYPE_A && len == 4 {
        let octets: [u8; 4] = [
            message[data],
            message[data + 1],
            message[data + 2],
            message[data + 3],
        ];
        Some(IpAddr::V4(format_ipv4(octets)))
    } else if rr_type == TYPE_AAAA && len == 16 {
        let groups: [u16; 8] = [
            read_u16(message, data),
            read_u16(message, data + 2),
            read_u16(message, data + 4),
            read_u16(message, data + 6),
            read_u16(message, data + 8),
            read_u16(message, data + 10),
            read_u16(message, data + 12),
            read_u16(message, data + 14),
        ];
        assert(groups@ =~= groups_at(message@, data as int));
        Some(IpAddr::V6(format_ipv6(groups)))
    } else {
        None
    }
}

/// Reads the resource record that starts at `start`; with it comes the
/// position just after it.
pub fn decode_resource(message: &[u8], start: usize) -> (decoded: Option<(Resource, usize)>)
    ensures
        decoded is Some <==> resource_at(message@, start as int) is Some,
        decoded matches Some((record, after)) ==> resource_at(message@, start as int) == Some(
            (record@, after as int),
        ),
{
    match decode_name(message, start) {
        None => None,
        Some((name, fixed)) => {
            if fixed > message.len() || message.len() - fixed < 10 {
                return None;
            }
            let rr_type = read_u16(message, fixed);
            let class = read_u16(message, fixed + 2);
            let ttl = read_u32(message, fixed + 4);
            let len = read_u16(message, fixed + 8) as usize;
            let data = fixed + 10;
            if len > message.len() - data {
                return None;
            }
            let end = data + len;
            let address = decode_address(message, rr_type, data, len);
            if rr_type == TYPE_NS {
                match decode_name(message, data) {
                    None => None,
                    Some((nsdname, after)) => {
                        if after == end {
                            Some((Resource { name, rr_type, class, ttl, nsdname, address }, end))
                        } else {
                            None
                        }
                    },
                }
            } else {
                Some(
                    (Resource { name, rr_type, class, ttl, nsdname: String::new(), address }, end),
                )
            }
        },
    }
}

/// Reads `count` resource records from `start` on: exactly that many, or
/// none at all where the bytes do not hold them.
pub fn decode_resources(message: &[u8], start: usize, count: usize) -> (decoded: Option<
    Vec<Resource>,
>)
    ensures
        decoded is Some <==> resources_at(message@, start as int, count as nat) is Some,
        decoded matches Some(records) ==> {
            &&& resources_at(message@, start as int, count as nat) matches Some((found, _))
            &&& found == records_view(records@)
            &&& records@.len() == count
        },
{
    let mut records: Vec<Resource> = Vec::new();
    let mut pos: usize = start;
    let mut done: usize = 0;
    while done < count
        invariant
            done <= count,
            records@.len() == done,
            resources_at(message@, start as int, done as nat) == Some(
                (records_view(records@), pos as int),
            ),
        decreases count - done,
    {
        match decode_resource(message, pos) {
            None => {
                proof {
                    lemma_resources_stay_missing(
                        message@,
                        start as int,
                        (done + 1) as nat,
                        count as nat,
                    );
                }
                return None;
            },
            Some((record, after)) => {
                records.push(record);
                pos = after;
                done += 1;
            },
        }
    }
    Some(records)
}

/// The reply that a message holds: its header, and the records that
/// follow its questions, as many as the header's answer, authority and
/// additional counts add up to.
pub open spec fn response_at(message: Seq<u8>) -> Option<ResponseView> {
    match header_at(message) {
        None => None,
        Some(header) => match questions_at(message, HEADER_LEN as int, header.qd_count as nat) {
            None => None,
            Some((_, records)) => match resources_at(message, records, header.record_count()) {
                None => None,
                Some((resources, _)) => Some(ResponseView { header, resources }),
            },
        },
    }
}

/// A decoded reply as contracts see it.
pub open spec fn response_view(decoded: Option<Response>) -> Option<ResponseView> {
    match decoded {
        Some(response) => Some(response@),
        None => None,
    }
}

/// Decodes a reply. There is one exactly when the message holds a
/// header, as many questions as the header counts, and after them as many
/// resource records as its three record counts add up to; bytes after the
/// last record are ignored.
pub fn decode_response(message: &[u8]) -> (decoded: Option<Response>)
    ensures
        response_view(decoded) == response_at(message@),
        decoded matches Some(response) ==> response@.wf(),
{
    let header = match decode_header(message) {
        None => { return None; },
        Some(header) => header,
    };
    let consumed = match decode_questions(message, HEADER_LEN, header.qd_count) {
        None => { return None; },
        Some((_, consumed)) => consumed,
    };
    let count: usize = header.an_count as usize + header.ns_count as usize
        + header.ar_count as usize;
    proof {
        lemma_questions_end_within(message@, HEADER_LEN as int, header.qd_count as nat);
        assert(HEADER_LEN + consumed <= message.len());
    }
    let records = match decode_resources(message, HEADER_LEN + consumed, count) {
        None => { return None; },
        Some(records) => records,
    };
    Response::new(header, records)
}

/// Questions that are there end within the message.
pub proof fn lemma_questions_end_within(message: Seq<u8>, pos: int, count: nat)
    requires
        0 <= pos <= message.len(),
    ensures
        questions_at(message, pos, count) matches Some((_, end)) ==> pos <= end <= message.len(),
    decreases count,
{
    if count > 0 {
        lemma_questions_end_within(message, pos, (count - 1) as nat);
        if let Some((_, next)) = questions_at(message, pos, (count - 1) as nat) {
            lemma_name_ends_later(message, next);
        }
    }
}

/// Where the label that starts at `from` ends: at the next dot, or at the
/// end of the name.
pub open spec fn label_end(name: Seq<char>, from: int) -> int
    decreases name.len() - from,
{
    if from < 0 || from >= name.len() || name[from] == '.' {
        from
    } else {
        label_end(name, from + 1)
    }
}

/// A label ends at or after its start, and within the name.
pub proof fn lemma_label_end_within(name: Seq<char>, from: int)
    requires
        0 <= from <= name.len(),
    ensures
        from <= label_end(name, from) <= name.len(),
    decreases name.len() - from,
{
    if from < name.len() && name[from] != '.' {
        lemma_label_end_within(name, from + 1);
    }
}

/// A piece of text as bytes: each character as the byte with its code.
pub open spec fn text_bytes(text: Seq<char>) -> Seq<u8> {
    Seq::new(text.len(), |i: int| text[i] as u8)
}

/// The part of a name from `from` on in wire form: each label as its
/// length and its bytes, and a zero length at the end. There is none where
/// a label is empty or longer than 63 bytes.
pub open spec fn wire_labels(name: Seq<char>, from: int) -> Option<Seq<u8>>
    decreases name.len() + 1 - from,
{
    if from < 0 || from >= name.len() {
        Some(seq![0u8])
    } else {
        let end = label_end(name, from);
        let len = end - from;
        if len <= 0 || len > 63 {
            None
        } else {
            proof {
                lemma_label_end_within(name, from);
            }
            match wire_labels(name, end + 1) {
                None => None,
                Some(rest) => Some(seq![len as u8] + text_bytes(name.subrange(from, end)) + rest),
            }
        }
    }
}

/// The longest that a name may be in wire form.
pub const MAX_NAME_LEN: usize = 255;

/// A name in wire form. The name is plain ASCII, its labels are set apart
/// by dots, and a dot at its very end changes nothing; the empty name and
/// a single dot both stand for the root. There is no wire form where a
/// character is not ASCII, where a label is empty or longer than 63 bytes,
/// or where the whole would be longer than 255 bytes.
pub open spec fn wire_name(name: Seq<char>) -> Option<Seq<u8>> {
    if !vstd::utf8::is_ascii_chars(name) {
        None
    } else if name == seq!['.'] {
        Some(seq![0u8])
    } else {
        match wire_labels(name, 0) {
            None => None,
            Some(bytes) => if bytes.len() > MAX_NAME_LEN {
                None
            } else {
                Some(bytes)
            },
        }
    }
}

/// The two bytes of a sixteen-bit number, high byte first.
pub open spec fn be16_bytes(value: u16) -> Seq<u8> {
    seq![(value / 256) as u8, (value % 256) as u8]
}

/// A query as bytes: a header with the given transaction id, all flags
/// clear (so recursion is not asked for), one question and no records;
/// then the question, which is the name in wire form, the record type and
/// the class.
pub open spec fn query_bytes(id: u16, name: Seq<char>, qtype: u16, qclass: u16) -> Option<
    Seq<u8>,
> {
    match wire_name(name) {
        None => None,
        Some(qname) => Some(
            be16_bytes(id) + be16_bytes(0) + be16_bytes(1) + be16_bytes(0) + be16_bytes(0)
                + be16_bytes(0) + qname + be16_bytes(qtype) + be16_bytes(qclass),
        ),
    }
}

/// Encoded bytes as contracts see them.
pub open spec fn bytes_view(encoded: Option<Vec<u8>>) -> Option<Seq<u8>> {
    match encoded {
        Some(bytes) => Some(bytes@),
        None => None,
    }
}

fn push_u16(out: &mut Vec<u8>, value: u16)
    ensures
        final(out)@ == old(out)@ + be16_bytes(value),
{
    out.push((value / 256) as u8);
    out.push((value % 256) as u8);
}

/// Puts a name into wire form.
pub fn encode_name(name: &str) -> (encoded: Option<Vec<u8>>)
    ensures
        bytes_view(encoded) == wire_name(name@),
{
    if !name.is_ascii() {
        return None;
    }
    let text = name.as_bytes();
    proof {
        vstd::string::is_ascii_spec_bytes(name);
    }
    let mut out: Vec<u8> = Vec::new();
    if text.len() == 1 && text[0] == 0x2e {
        assert(name@ =~= seq!['.']);
        out.push(0);
        return Some(out);
    }
    assert(name@ != seq!['.']);
    let mut from: usize = 0;
    while from < text.len()
        invariant
            text@ == text_bytes(name@),
            vstd::utf8::is_ascii_chars(name@),
            from <= text.len(),
            name@ != seq!['.'],
            wire_labels(name@, 0) == (match wire_labels(name@, from as int) {
                Some(rest) => Some(out@ + rest),
                None => None,
            }),
        decreases text.len() - from,
    {
        let mut end: usize = from;
        while end < text.len() && text[end] != 0x2e
            invariant
                text@ == text_bytes(name@),
                vstd::utf8::is_ascii_chars(name@),
                from <= end <= text.len(),
                label_end(name@, from as int) == label_end(name@, end as int),
            decreases text.len() - end,
        {
            end += 1;
        }
        assert(label_end(name@, end as int) == end);
        let len: usize = end - from;
        if len == 0 || len > 63 {
            return None;
        }
        let ghost before = out@;
        out.push(len as u8);
        let mut k: usize = from;
        while k < end
            invariant
                from <= k <= end <= text.len(),
                text@ == text_bytes(name@),
                out@ == before + seq![len as u8] + text@.subrange(from as int, k as int),
            decreases end - k,
        {
            out.push(text[k]);
            k += 1;
        }
        proof {
            assert(text@.subrange(from as int, end as int) =~= text_bytes(
                name@.subrange(from as int, end as int),
            ));
            if let Some(rest) = wire_labels(name@, end + 1) {
                assert(out@ + rest =~= before + (seq![len as u8] + text_bytes(
                    name@.subrange(from as int, end as int),
                ) + rest));
            }
        }
        from = if end == text.len() {
            end
        } else {
            end + 1
        };
    }
    out.push(0);
    if out.len() > MAX_NAME_LEN {
        return None;
    }
    Some(out)
}

/// Encodes a query: a message with one question and nothing else, that
/// does not ask for recursion. There is one exactly when the name has a
/// wire form.
pub fn encode_query(id: u16, name: &str, qtype: u16, qclass: u16) -> (encoded: Option<Vec<u8>>)
    ensures
        bytes_view(encoded) == query_bytes(id, name@, qtype, qclass),
{
    let qname = match encode_name(name) {
        None => { return None; },
        Some(qname) => qname,
    };
    let mut out: Vec<u8> = Vec::new();
    push_u16(&mut out, id);
    push_u16(&mut out, 0);
    push_u16(&mut out, 1);
    push_u16(&mut out, 0);
    push_u16(&mut out, 0);
    push_u16(&mut out, 0);
    let ghost header = out@;
    let mut k: usize = 0;
    while k < qname.len()
        invariant
            k <= qname.len(),
            out@ == header + qname@.subrange(0, k as int),
        decreases qname.len() - k,
    {
        out.push(qname[k]);
        k += 1;
    }
    push_u16(&mut out, qtype);
    push_u16(&mut out, qclass);
    Some(out)
}

/// The labels of the part of a name from `from` on, each as bytes.
pub open spec fn label_list(name: Seq<char>, from: int) -> Seq<Seq<u8>>
    decreases name.len() + 1 - from,
{
    if from < 0 || from >= name.len() {
        Seq::empty()
    } else {
        let end = label_end(name, from);
        if end - from <= 0 {
            Seq::empty()
        } else {
            proof {
                lemma_label_end_within(name, from);
            }
            seq![text_bytes(name.subrange(from, end))] + label_list(name, end + 1)
        }
    }
}

/// A name without the dot at its very end, if it has one there.
pub open spec fn without_final_dot(name: Seq<char>) -> Seq<char> {
    if name.len() > 0 && name.last() == '.' {
        name.drop_last()
    } else {
        name
    }
}

proof fn lemma_wire_labels_decode(
    message: Seq<u8>,
    pos: int,
    limit: int,
    name: Seq<char>,
    from: int,
)
    requires
        0 <= from <= name.len() + 1,
        0 <= pos,
        wire_labels(name, from) matches Some(wire) && pos + wire.len() <= message.len()
            && message.subrange(pos, pos + wire.len()) == wire,
    ensures
        labels_at(message, pos, limit) == Some(
            (label_list(name, from), pos + wire_labels(name, from)->0.len()),
        ),
    decreases name.len() + 1 - from,
{
    let wire = wire_labels(name, from)->0;
    // The byte at `pos` is the first of the wire form: a length, or the
    // zero that ends the name.
    assert(message[pos] == message.subrange(pos, pos + wire.len())[0]);
    if from < name.len() {
        lemma_label_end_within(name, from);
        let end = label_end(name, from);
        let len = end - from;
        let label = text_bytes(name.subrange(from, end));
        let rest = wire_labels(name, end + 1)->0;
        assert(message.subrange(pos + 1, pos + 1 + len) =~= label) by {
            assert forall|i: int| 0 <= i < len implies message.subrange(pos + 1, pos + 1 + len)[i]
                == label[i] by {
                assert(message[pos + 1 + i] == message.subrange(pos, pos + wire.len())[1 + i]);
            }
        }
        assert(message.subrange(pos + 1 + len, pos + 1 + len + rest.len()) =~= rest) by {
            assert forall|i: int| 0 <= i < rest.len() implies message.subrange(
                pos + 1 + len,
                pos + 1 + len + rest.len(),
            )[i] == rest[i] by {
                assert(message[pos + 1 + len + i] == message.subrange(pos, pos + wire.len())[1
                    + len + i]);
            }
        }
        lemma_wire_labels_decode(message, pos + 1 + len, limit, name, end + 1);
    }
}

proof fn lemma_dotted_front(label: Seq<u8>, rest: Seq<Seq<u8>>)
    ensures
        dotted(seq![label] + rest) == if rest.len() == 0 {
            label_text(label)
        } else {
            label_text(label) + seq!['.'] + dotted(rest)
        },
    decreases rest.len(),
{
    if rest.len() > 0 {
        assert((seq![label] + rest).drop_last() =~= seq![label] + rest.drop_last());
        lemma_dotted_front(label, rest.drop_last());
    }
}

proof fn lemma_label_has_no_dot(name: Seq<char>, from: int, i: int)
    requires
        0 <= from <= i < label_end(name, from),
    ensures
        i < name.len(),
        name[i] != '.',
    decreases i - from,
{
    if from < name.len() && name[from] != '.' {
        if from < i {
            lemma_label_has_no_dot(name, from + 1, i);
        }
    }
}

proof fn lemma_label_ends_at_dot(name: Seq<char>, from: int)
    requires
        0 <= from <= name.len(),
    ensures
        label_end(name, from) < name.len() ==> name[label_end(name, from)] == '.',
    decreases name.len() - from,
{
    if from < name.len() && name[from] != '.' {
        lemma_label_ends_at_dot(name, from + 1);
    }
}

proof fn lemma_label_list_text(name: Seq<char>, from: int)
    requires
        0 <= from <= name.len(),
        vstd::utf8::is_ascii_chars(name),
        wire_labels(name, from) is Some,
    ensures
        dotted(label_list(name, from)) == without_final_dot(name.subrange(from, name.len() as int)),
        from < name.len() ==> label_list(name, from).len() > 0,
    decreases name.len() + 1 - from,
{
    if from < name.len() {
        lemma_label_end_within(name, from);
        lemma_label_ends_at_dot(name, from);
        let end = label_end(name, from);
        let label = name.subrange(from, end);
        // An ASCII label comes back from its bytes unchanged.
        assert(label_text(text_bytes(label)) =~= label);
        lemma_dotted_front(text_bytes(label), label_list(name, end + 1));
        if end == name.len() {
            // The last label runs to the end of the name: no dot ends it.
            lemma_label_has_no_dot(name, from, name.len() - 1);
        } else if end + 1 < name.len() {
            lemma_label_list_text(name, end + 1);
        }
    }
}

/// What is encoded can be decoded. The bytes of a query hold a header with
/// the query's transaction id, no flags and a single question, and that
/// question holds the name asked about, without the dot at its end if it
/// has one there, with the record type and the class; the question ends
/// where the bytes end. Read as a reply, the bytes are a reply without
/// records.
pub proof fn lemma_query_round_trip(id: u16, name: Seq<char>, qtype: u16, qclass: u16)
    requires
        query_bytes(id, name, qtype, qclass) is Some,
    ensures
        ({
            let bytes = query_bytes(id, name, qtype, qclass)->0;
            let header = Header {
                id,
                flags: 0,
                qd_count: 1,
                an_count: 0,
                ns_count: 0,
                ar_count: 0,
            };
            let question = QuestionView { name: without_final_dot(name), qtype, qclass };
            &&& header_at(bytes) == Some(header)
            &&& questions_at(bytes, HEADER_LEN as int, 1) == Some(
                (seq![question], bytes.len() as int),
            )
            &&& response_at(bytes) == Some(ResponseView { header, resources: Seq::empty() })
        }),
{
    let bytes = query_bytes(id, name, qtype, qclass)->0;
    let qname = wire_name(name)->0;
    // The name stands right after the twelve bytes of the header.
    assert(bytes.subrange(12, 12 + qname.len() as int) =~= qname);
    if name == seq!['.'] {
        assert(without_final_dot(name) =~= Seq::<char>::empty());
    } else {
        lemma_wire_labels_decode(bytes, 12, 12, name, 0);
        lemma_label_list_text(name, 0);
        assert(name.subrange(0, name.len() as int) =~= name);
    }
    let question = QuestionView { name: without_final_dot(name), qtype, qclass };
    assert(questions_at(bytes, 12, 1) == Some((seq![question], bytes.len() as int))) by {
        reveal_with_fuel(questions_at, 2);
    }
}

/// A decoded reply has exactly as many records as the three record counts
/// of its header add up to.
pub proof fn lemma_decoded_reply_is_well_formed(message: Seq<u8>)
    ensures
        response_at(message) matches Some(response) ==> response.wf(),
{
    if let Some(header) = header_at(message) {
        if let Some((_, records)) = questions_at(
            message,
            HEADER_LEN as int,
            header.qd_count as nat,
        ) {
            lemma_resources_count(message, records, header.record_count());
        }
    }
}

} // verus!
