//! The logical shape of a DNS reply: header, resource records and the three
//! sections that the header's counts cut the record list into.

use vstd::prelude::*;

verus! {

/// Record type of an IPv4 host address.
pub const TYPE_A: u16 = 1;

/// Record type of a delegation to an authoritative nameserver.
pub const TYPE_NS: u16 = 2;

/// Record type of an IPv6 host address.
pub const TYPE_AAAA: u16 = 28;

/// The Internet class.
pub const CLASS_IN: u16 = 1;

/// The fixed part at the start of every message.
#[derive(Clone, Copy, Debug, PartialEq, Eq, Structural)]
pub struct Header {
    /// Transaction id chosen by whoever sent the query.
    pub id: u16,
    /// The flag word; its low four bits are the response code.
    pub flags: u16,
    /// Number of entries in the question section.
    pub qd_count: u16,
    /// Number of records in the answer section.
    pub an_count: u16,
    /// Number of records in the authority section.
    pub ns_count: u16,
    /// Number of records in the additional section.
    pub ar_count: u16,
}

/// The response code held in a flag word: its low four bits.
pub open spec fn rcode_of(flags: u16) -> u8 {
    (flags & 0x000f) as u8
}

impl Header {
    /// The response code of this header as a number.
    pub open spec fn spec_rcode(&self) -> u8 {
        rcode_of(self.flags)
    }

    /// The number of records that follow the question section.
    pub open spec fn record_count(&self) -> nat {
        (self.an_count + self.ns_count + self.ar_count) as nat
    }

    /// The response code: zero for success, anything else for an error that
    /// the answering server reports.
    #[verifier::when_used_as_spec(spec_rcode)]
    pub fn rcode(&self) -> (code: u8)
        ensures
            code == self.spec_rcode(),
            code < 16,
    {
        let flags: u16 = self.flags;
        let low: u16 = flags & 0x000f;
        assert(low < 16) by (bit_vector)
            requires
                low == flags & 0x000f,
        ;
        low as u8
    }
}

/// An address carried by a resource record, as text.
#[derive(Clone, Debug, PartialEq, Eq)]
pub enum IpAddr {
    /// An IPv4 address in dotted decimal.
    V4(String),
    /// An IPv6 address.
    V6(String),
}

/// What an [`IpAddr`] stands for in contracts.
pub enum IpAddrView {
    V4(Seq<char>),
    V6(Seq<char>),
}

impl View for IpAddr {
    type V = IpAddrView;

    open spec fn view(&self) -> IpAddrView {
        match self {
            IpAddr::V4(text) => IpAddrView::V4(text@),
            IpAddr::V6(text) => IpAddrView::V6(text@),
        }
    }
}

/// One entry of the question section.
#[derive(Clone, Debug, PartialEq, Eq)]
pub struct Question {
    /// The name asked about.
    pub name: String,
    /// The record type asked for.
    pub qtype: u16,
    /// The class asked for.
    pub qclass: u16,
}

/// What a [`Question`] stands for in contracts.
pub struct QuestionView {
    pub name: Seq<char>,
    pub qtype: u16,
    pub qclass: u16,
}

impl View for Question {
    type V = QuestionView;

    open spec fn view(&self) -> QuestionView {
        QuestionView { name: self.name@, qtype: self.qtype, qclass: self.qclass }
    }
}

/// The views of a run of questions, in order.
pub open spec fn questions_view(questions: Seq<Question>) -> Seq<QuestionView> {
    Seq::new(questions.len(), |i: int| questions[i]@)
}

/// One resource record, decoded.
#[derive(Clone, Debug, PartialEq, Eq)]
pub struct Resource {
    /// The name that the record is about.
    pub name: String,
    /// The record type, such as [`TYPE_A`] or [`TYPE_NS`].
    pub rr_type: u16,
    /// The record class.
    pub class: u16,
    /// How long the record may be kept, in seconds.
    pub ttl: u32,
    /// For a delegation, the name of the nameserver delegated to; empty
    /// for every other record type.
    pub nsdname: String,
    /// The address that the record carries, where it carries one.
    pub address: Option<IpAddr>,
}

/// What a [`Resource`] stands for in contracts.
pub struct ResourceView {
    pub name: Seq<char>,
    pub rr_type: u16,
    pub class: u16,
    pub ttl: u32,
    pub nsdname: Seq<char>,
    pub address: Option<IpAddrView>,
}

/// The view of an optional address.
pub open spec fn address_view(address: Option<IpAddr>) -> Option<IpAddrView> {
    match address {
        Some(a) => Some(a@),
        None => None,
    }
}

impl View for Resource {
    type V = ResourceView;

    open spec fn view(&self) -> ResourceView {
        ResourceView {
            name: self.name@,
            rr_type: self.rr_type,
            class: self.class,
            ttl: self.ttl,
            nsdname: self.nsdname@,
            address: address_view(self.address),
        }
    }
}

/// The views of a run of records, in order.
pub open spec fn records_view(records: Seq<Resource>) -> Seq<ResourceView> {
    Seq::new(records.len(), |i: int| records[i]@)
}

/// What a [`Response`] stands for in contracts: the header and the flat list
/// of records that follow the question section.
pub struct ResponseView {
    pub header: Header,
    pub resources: Seq<ResourceView>,
}

impl ResponseView {
    /// The record list is exactly as long as the header's three counts say.
    pub open spec fn wf(self) -> bool {
        self.resources.len() == self.header.record_count()
    }

    /// Where the authority section starts in the record list.
    pub open spec fn authority_start(self) -> int {
        self.header.an_count as int
    }

    /// Where the additional section starts in the record list.
    pub open spec fn additional_start(self) -> int {
        self.header.an_count + self.header.ns_count
    }

    /// The answer section: the first `an_count` records.
    pub open spec fn answers(self) -> Seq<ResourceView> {
        self.resources.subrange(0, self.authority_start())
    }

    /// The authority section: the `ns_count` records after the answers.
    pub open spec fn authority(self) -> Seq<ResourceView> {
        self.resources.subrange(self.authority_start(), self.additional_start())
    }

    /// The additional section: the `ar_count` records after the authority
    /// section.
    pub open spec fn additional(self) -> Seq<ResourceView> {
        self.resources.subrange(
            self.additional_start(),
            self.additional_start() + self.header.ar_count,
        )
    }
}

/// A decoded reply. Its record list always has exactly as many entries as
/// the three counts of its header add up to.
#[derive(Debug)]
pub struct Response {
    header: Header,
    resources: Vec<Resource>,
}

impl View for Response {
    type V = ResponseView;

    closed spec fn view(&self) -> ResponseView {
        ResponseView { header: self.header, resources: records_view(self.resources@) }
    }
}

impl Response {
    #[verifier::type_invariant]
    spec fn counts_match(&self) -> bool {
        self.resources@.len() == self.header.record_count()
    }

    /// Puts a header and its records together. There is a reply exactly
    /// when the number of records is the sum of the header's answer,
    /// authority and additional counts.
    pub fn new(header: Header, resources: Vec<Resource>) -> (made: Option<Response>)
        ensures
            made is Some <==> resources@.len() == header.record_count(),
            made matches Some(response) ==> {
                &&& response@.header == header
                &&& response@.resources == records_view(resources@)
                &&& response@.wf()
            },
    {
        let expected: usize = header.an_count as usize + header.ns_count as usize
            + header.ar_count as usize;
        if resources.len() == expected {
            Some(Response { header, resources })
        } else {
            None
        }
    }

    /// The header of the reply.
    pub fn header(&self) -> (header: Header)
        ensures
            header == self@.header,
    {
        self.header
    }

    /// Every record of the reply, in wire order.
    pub fn resources(&self) -> (records: &[Resource])
        ensures
            records_view(records@) == self@.resources,
            self@.wf(),
    {
        proof {
            use_type_invariant(self);
        }
        self.resources.as_slice()
    }

    /// The records of the answer section.
    pub fn answers(&self) -> (records: &[Resource])
        ensures
            records_view(records@) == self@.answers(),
            records@.len() == self@.header.an_count,
    {
        proof {
            use_type_invariant(self);
        }
        let end: usize = self.header.an_count as usize;
        let records = vstd::slice::slice_subrange(self.resources.as_slice(), 0, end);
        records
    }

    /// The records of the authority section.
    pub fn authority(&self) -> (records: &[Resource])
        ensures
            records_view(records@) == self@.authority(),
            records@.len() == self@.header.ns_count,
    {
        proof {
            use_type_invariant(self);
        }
        let begin: usize = self.header.an_count as usize;
        let end: usize = begin + self.header.ns_count as usize;
        let records = vstd::slice::slice_subrange(self.resources.as_slice(), begin, end);
        records
    }

    /// The records of the additional section.
    pub fn additional(&self) -> (records: &[Resource])
        ensures
            records_view(records@) == self@.additional(),
            records@.len() == self@.header.ar_count,
    {
        proof {
            use_type_invariant(self);
        }
        let begin: usize = self.header.an_count as usize + self.header.ns_count as usize;
        let end: usize = begin + self.header.ar_count as usize;
        let records = vstd::slice::slice_subrange(self.resources.as_slice(), begin, end);
        records
    }
}

/// A place in one of the three sections.
pub enum Section {
    /// Position in the answer section.
    Answer(int),
    /// Position in the authority section.
    Authority(int),
    /// Position in the additional section.
    Additional(int),
}

/// The section that the record at position `i` of the flat list belongs
/// to, and its position there.
pub open spec fn section_of(header: Header, i: int) -> Section {
    if i < header.an_count {
        Section::Answer(i)
    } else if i < header.an_count + header.ns_count {
        Section::Authority(i - header.an_count)
    } else {
        Section::Additional(i - header.an_count - header.ns_count)
    }
}

/// The three sections of a reply are cut from its record list one after the
/// other: joined in order they give the list back, and each is as long as
/// its count in the header. So every record lies in exactly one section,
/// at the position that [`section_of`] names.
pub proof fn lemma_sections_partition(response: ResponseView)
    requires
        response.wf(),
    ensures
        response.answers() + response.authority() + response.additional() == response.resources,
        response.answers().len() == response.header.an_count,
        response.authority().len() == response.header.ns_count,
        response.additional().len() == response.header.ar_count,
        forall|i: int|
            0 <= i < response.resources.len() ==> #[trigger] response.resources[i] == (
            match section_of(response.header, i) {
                Section::Answer(k) => response.answers()[k],
                Section::Authority(k) => response.authority()[k],
                Section::Additional(k) => response.additional()[k],
            }),
{
    assert(response.answers() + response.authority() + response.additional()
        =~= response.resources);
}

} // verus!
