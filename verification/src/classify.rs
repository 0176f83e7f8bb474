//! What one reply means for the query that it answers: an address, a
//! failure, or where to ask next.

use crate::message::{
    records_view, IpAddr, IpAddrView, Resource, ResourceView, Response, ResponseView, TYPE_A,
    TYPE_NS,
};
use vstd::prelude::*;

verus! {

/// Why a resolution ends without an address.
#[derive(Clone, Copy, Debug, PartialEq, Eq, Structural)]
pub enum Failure {
    /// The server reported this non-zero response code.
    ErrorCode(u8),
    /// The first answer carries an IPv6 address.
    Ipv6Answer,
    /// The first answer carries no address at all.
    NoAddress,
    /// A reply without answer names no nameserver to turn to.
    NoNameserver,
    /// The additional section has records, but none gives a nameserver's
    /// IPv4 address.
    NoGlue,
}

/// The reading of one reply.
#[derive(Clone, Debug, PartialEq, Eq)]
pub enum Verdict {
    /// The name resolves to this IPv4 address.
    Answer(String),
    /// The query cannot be resolved.
    Failure(Failure),
    /// Ask the nameserver at this IPv4 address next.
    Referral(String),
    /// The reply names a nameserver without giving its address: the address
    /// of this name has to be found first.
    Lookup(String),
}

/// What a [`Verdict`] stands for in contracts.
pub enum VerdictView {
    Answer(Seq<char>),
    Failure(Failure),
    Referral(Seq<char>),
    Lookup(Seq<char>),
}

impl View for Verdict {
    type V = VerdictView;

    open spec fn view(&self) -> VerdictView {
        match self {
            Verdict::Answer(address) => VerdictView::Answer(address@),
            Verdict::Failure(failure) => VerdictView::Failure(*failure),
            Verdict::Referral(address) => VerdictView::Referral(address@),
            Verdict::Lookup(name) => VerdictView::Lookup(name@),
        }
    }
}

impl VerdictView {
    /// The verdict ends the query that the reply answers: no further query
    /// follows from it.
    pub open spec fn is_terminal(self) -> bool {
        self is Answer || self is Failure
    }
}

/// What a referral is searched for.
#[derive(Clone, Copy, Debug, PartialEq, Eq, Structural)]
pub enum Wanted {
    /// A delegation: a record of type NS.
    Nameserver,
    /// A nameserver's IPv4 address: a record of type A that carries one.
    Glue,
}

/// The record delegates to a nameserver.
pub open spec fn is_nameserver(record: ResourceView) -> bool {
    record.rr_type == TYPE_NS
}

/// The record gives an IPv4 address: it is of type A and carries one.
pub open spec fn is_glue(record: ResourceView) -> bool {
    record.rr_type == TYPE_A && record.address matches Some(IpAddrView::V4(_))
}

impl Wanted {
    /// The record is of the kind searched for.
    pub open spec fn holds(self, record: ResourceView) -> bool {
        match self {
            Wanted::Nameserver => is_nameserver(record),
            Wanted::Glue => is_glue(record),
        }
    }

    /// Tells whether the record is of the kind searched for.
    pub fn accepts(self, record: &Resource) -> (found: bool)
        ensures
            found == self.holds(record@),
    {
        match self {
            Wanted::Nameserver => record.rr_type == TYPE_NS,
            Wanted::Glue => record.rr_type == TYPE_A && match &record.address {
                Some(IpAddr::V4(_)) => true,
                _ => false,
            },
        }
    }
}

/// `i` is the position of the first record among `records` of the kind
/// searched for.
pub open spec fn is_first_match(records: Seq<ResourceView>, wanted: Wanted, i: int) -> bool {
    &&& 0 <= i < records.len()
    &&& wanted.holds(records[i])
    &&& forall|j: int| 0 <= j < i ==> !wanted.holds(#[trigger] records[j])
}

/// The position of the first record of the kind searched for, if there is
/// one.
pub open spec fn first_match(records: Seq<ResourceView>, wanted: Wanted) -> Option<int> {
    if exists|i: int| is_first_match(records, wanted, i) {
        Some(choose|i: int| is_first_match(records, wanted, i))
    } else {
        None
    }
}

/// A first match is the only first match.
pub proof fn lemma_first_match_found(records: Seq<ResourceView>, wanted: Wanted, i: int)
    requires
        is_first_match(records, wanted, i),
    ensures
        first_match(records, wanted) == Some(i),
{
}

/// Where no record is of the kind searched for there is no first match.
pub proof fn lemma_first_match_none(records: Seq<ResourceView>, wanted: Wanted)
    requires
        forall|j: int| 0 <= j < records.len() ==> !wanted.holds(#[trigger] records[j]),
    ensures
        first_match(records, wanted) is None,
{
}

/// Where some record is of the kind searched for, there is a first one, at
/// or before it.
pub proof fn lemma_first_match_exists(records: Seq<ResourceView>, wanted: Wanted, i: int)
    requires
        0 <= i < records.len(),
        wanted.holds(records[i]),
    ensures
        first_match(records, wanted) matches Some(first) && 0 <= first <= i && is_first_match(
            records,
            wanted,
            first,
        ),
    decreases i,
{
    if exists|j: int| 0 <= j < i && wanted.holds(#[trigger] records[j]) {
        let j = choose|j: int| 0 <= j < i && wanted.holds(#[trigger] records[j]);
        lemma_first_match_exists(records, wanted, j);
    } else {
        lemma_first_match_found(records, wanted, i);
    }
}

/// The reading of a reply that has answers, from its first answer.
pub open spec fn answer_verdict(first: ResourceView) -> VerdictView {
    match first.address {
        Some(IpAddrView::V4(text)) => VerdictView::Answer(text),
        Some(IpAddrView::V6(_)) => VerdictView::Failure(Failure::Ipv6Answer),
        None => VerdictView::Failure(Failure::NoAddress),
    }
}

/// The IPv4 address that a record carries, as text; empty where it carries
/// none.
pub open spec fn ipv4_of(record: ResourceView) -> Seq<char> {
    match record.address {
        Some(IpAddrView::V4(text)) => text,
        _ => Seq::empty(),
    }
}

/// The reading of a reply without answer and without error code, from its
/// authority and additional sections: the first delegation says whom to
/// turn to, and the first IPv4 address in the additional section, where
/// there is such a section, says where to find a nameserver.
pub open spec fn referral_verdict(
    authority: Seq<ResourceView>,
    additional: Seq<ResourceView>,
) -> VerdictView {
    match first_match(authority, Wanted::Nameserver) {
        None => VerdictView::Failure(Failure::NoNameserver),
        Some(n) => if additional.len() == 0 {
            VerdictView::Lookup(authority[n].nsdname)
        } else {
            match first_match(additional, Wanted::Glue) {
                Some(g) => VerdictView::Referral(ipv4_of(additional[g])),
                None => VerdictView::Failure(Failure::NoGlue),
            }
        },
    }
}

/// The reading of a reply. Answers come first, whatever else the reply
/// holds; then the response code; only then the referral.
pub open spec fn verdict(response: ResponseView) -> VerdictView {
    if response.header.an_count > 0 {
        answer_verdict(response.answers()[0])
    } else if response.header.spec_rcode() != 0 {
        VerdictView::Failure(Failure::ErrorCode(response.header.spec_rcode()))
    } else {
        referral_verdict(response.authority(), response.additional())
    }
}

/// The position of the first record among `records` of the kind searched
/// for.
pub fn find_first(records: &[Resource], wanted: Wanted) -> (found: Option<usize>)
    ensures
        found matches Some(i) ==> first_match(records_view(records@), wanted) == Some(i as int),
        found is None ==> first_match(records_view(records@), wanted) is None,
{
    let mut i: usize = 0;
    while i < records.len()
        invariant
            i <= records.len(),
            forall|j: int| 0 <= j < i ==> !wanted.holds(#[trigger] records_view(records@)[j]),
        decreases records.len() - i,
    {
        if wanted.accepts(&records[i]) {
            proof {
                lemma_first_match_found(records_view(records@), wanted, i as int);
            }
            return Some(i);
        }
        i += 1;
    }
    proof {
        lemma_first_match_none(records_view(records@), wanted);
    }
    None
}

/// Reads a reply: what it means for the query that it answers.
pub fn classify(response: &Response) -> (v: Verdict)
    ensures
        v@ == verdict(response@),
{
    let header = response.header();
    if header.an_count > 0 {
        let answers = response.answers();
        return match &answers[0].address {
            Some(IpAddr::V4(text)) => Verdict::Answer(text.clone()),
            Some(IpAddr::V6(_)) => Verdict::Failure(Failure::Ipv6Answer),
            None => Verdict::Failure(Failure::NoAddress),
        };
    }
    let code = header.rcode();
    if code != 0 {
        return Verdict::Failure(Failure::ErrorCode(code));
    }
    let authority = response.authority();
    let additional = response.additional();
    match find_first(authority, Wanted::Nameserver) {
        None => Verdict::Failure(Failure::NoNameserver),
        Some(n) => {
            if additional.len() == 0 {
                Verdict::Lookup(authority[n].nsdname.clone())
            } else {
                match find_first(additional, Wanted::Glue) {
                    None => Verdict::Failure(Failure::NoGlue),
                    Some(g) => {
                        match &additional[g].address {
                            Some(IpAddr::V4(text)) => Verdict::Referral(text.clone()),
                            _ => Verdict::Failure(Failure::NoGlue),
                        }
                    },
                }
            }
        },
    }
}

/// Answers take precedence. A reply that has an answer is read from its
/// first answer alone: the response code, the authority section and the
/// additional section do not matter, and the reading never sends the query
/// anywhere else.
pub proof fn lemma_answers_take_precedence(response: ResponseView, other: ResponseView)
    requires
        response.wf(),
        other.wf(),
        response.header.an_count > 0,
        other.header.an_count > 0,
        response.resources[0] == other.resources[0],
    ensures
        verdict(response) == answer_verdict(response.resources[0]),
        verdict(response) == verdict(other),
        verdict(response).is_terminal(),
{
}

/// A reply without answer whose response code is not zero is read as that
/// error, whatever its other sections hold.
pub proof fn lemma_error_code_is_failure(response: ResponseView)
    requires
        response.header.an_count == 0,
        response.header.spec_rcode() != 0,
    ensures
        verdict(response) == VerdictView::Failure(
            Failure::ErrorCode(response.header.spec_rcode()),
        ),
        verdict(response).is_terminal(),
{
}

/// A referral prefers IPv4. Where the additional section holds a record
/// of type A with an IPv4 address, the next nameserver is the address of
/// the first such record, whatever IPv6 records stand before or after it.
pub proof fn lemma_referral_prefers_ipv4(response: ResponseView, ns: int, glue: int)
    requires
        response.header.an_count == 0,
        response.header.spec_rcode() == 0,
        0 <= ns < response.authority().len(),
        is_nameserver(response.authority()[ns]),
        0 <= glue < response.additional().len(),
        is_glue(response.additional()[glue]),
    ensures
        verdict(response) matches VerdictView::Referral(address) && exists|first: int|
            0 <= first <= glue && #[trigger] is_first_match(
                response.additional(),
                Wanted::Glue,
                first,
            ) && address == ipv4_of(response.additional()[first]),
{
    lemma_first_match_exists(response.authority(), Wanted::Nameserver, ns);
    lemma_first_match_exists(response.additional(), Wanted::Glue, glue);
}

} // verus!
