//! The resolution itself, as a machine that never touches the network: it
//! says which query to send, takes the reply, and says what comes next.

use crate::classify::{
    answer_verdict, classify, is_first_match, is_nameserver, lemma_first_match_exists, verdict,
    Failure, Verdict, VerdictView, Wanted,
};
use crate::message::{Response, ResponseView, CLASS_IN, TYPE_A};
use crate::roots::{is_root, random_root, random_u16};
use vstd::prelude::*;

verus! {

/// A name and the record type asked of it.
#[derive(Clone, Debug, PartialEq, Eq)]
pub struct Goal {
    /// The fully qualified domain name.
    pub name: String,
    /// The record type.
    pub qtype: u16,
}

/// What a [`Goal`] stands for in contracts.
pub struct GoalView {
    pub name: Seq<char>,
    pub qtype: u16,
}

impl View for Goal {
    type V = GoalView;

    open spec fn view(&self) -> GoalView {
        GoalView { name: self.name@, qtype: self.qtype }
    }
}

/// The views of a stack of goals, outermost first.
pub open spec fn goals_view(goals: Seq<Goal>) -> Seq<GoalView> {
    Seq::new(goals.len(), |i: int| goals[i]@)
}

/// How a resolution ended.
#[derive(Clone, Debug, PartialEq, Eq)]
pub enum Outcome {
    /// The name resolved to this IPv4 address.
    Resolved(String),
    /// There is no result, for this reason.
    Failed(Failure),
}

/// What an [`Outcome`] stands for in contracts.
pub enum OutcomeView {
    Resolved(Seq<char>),
    Failed(Failure),
}

impl View for Outcome {
    type V = OutcomeView;

    open spec fn view(&self) -> OutcomeView {
        match self {
            Outcome::Resolved(address) => OutcomeView::Resolved(address@),
            Outcome::Failed(failure) => OutcomeView::Failed(*failure),
        }
    }
}

impl OutcomeView {
    /// The address found, if one was.
    pub open spec fn address(self) -> Option<Seq<char>> {
        match self {
            OutcomeView::Resolved(address) => Some(address),
            OutcomeView::Failed(_) => None,
        }
    }
}

impl Outcome {
    /// The address found, or nothing.
    pub fn into_address(self) -> (address: Option<String>)
        ensures
            address is Some <==> self@ is Resolved,
            address matches Some(text) ==> self@.address() == Some(text@),
    {
        match self {
            Outcome::Resolved(address) => Some(address),
            Outcome::Failed(_) => None,
        }
    }
}

/// One query, ready to be put on the wire.
#[derive(Clone, Debug, PartialEq, Eq)]
pub struct Query {
    /// The transaction id.
    pub id: u16,
    /// The name asked about.
    pub name: String,
    /// The record type asked for.
    pub qtype: u16,
    /// The class asked for.
    pub qclass: u16,
    /// The IPv4 address of the nameserver to send the query to, as text.
    pub nameserver: String,
}

/// What a [`Query`] stands for in contracts.
pub struct QueryView {
    pub id: u16,
    pub name: Seq<char>,
    pub qtype: u16,
    pub qclass: u16,
    pub nameserver: Seq<char>,
}

impl View for Query {
    type V = QueryView;

    open spec fn view(&self) -> QueryView {
        QueryView {
            id: self.id,
            name: self.name@,
            qtype: self.qtype,
            qclass: self.qclass,
            nameserver: self.nameserver@,
        }
    }
}

/// What the caller of the machine has to do next.
#[derive(Clone, Debug, PartialEq, Eq)]
pub enum Action {
    /// Send this query, wait for the reply, and hand it in.
    Send(Query),
    /// Nothing more: the resolution has ended like this.
    Finish(Outcome),
}

/// What an [`Action`] stands for in contracts.
pub enum ActionView {
    Send(QueryView),
    Finish(OutcomeView),
}

impl View for Action {
    type V = ActionView;

    open spec fn view(&self) -> ActionView {
        match self {
            Action::Send(query) => ActionView::Send(query@),
            Action::Finish(outcome) => ActionView::Finish(outcome@),
        }
    }
}

impl ActionView {
    /// The transaction id of the query to send; zero where there is none.
    pub open spec fn id(self) -> u16 {
        match self {
            ActionView::Send(query) => query.id,
            ActionView::Finish(_) => 0,
        }
    }
}

/// The state of a resolution, as contracts see it.
pub enum ResolutionView {
    /// A query is due. `goals` holds what is being resolved, the name
    /// first asked about at the bottom and the nameserver name whose
    /// address is needed right now at the top; `nameserver` is whom to ask.
    Asking { goals: Seq<GoalView>, nameserver: Seq<char> },
    /// The resolution has ended.
    Done(OutcomeView),
}

impl ResolutionView {
    /// While a query is due there is a goal to ask about.
    pub open spec fn wf(self) -> bool {
        self matches ResolutionView::Asking { goals, .. } ==> goals.len() > 0
    }

    /// How many goals are open: none once the resolution has ended.
    pub open spec fn depth(self) -> nat {
        match self {
            ResolutionView::Asking { goals, .. } => goals.len(),
            ResolutionView::Done(_) => 0,
        }
    }
}

/// The state in which `name` is asked of `nameserver` for records of type
/// `qtype`, with nothing else open.
pub open spec fn start(name: Seq<char>, qtype: u16, nameserver: Seq<char>) -> ResolutionView {
    ResolutionView::Asking { goals: seq![GoalView { name, qtype }], nameserver }
}

/// What is to be done in a state; `id` is the transaction id that a query
/// gets.
pub open spec fn action_of(state: ResolutionView, id: u16) -> ActionView {
    match state {
        ResolutionView::Asking { goals, nameserver } => ActionView::Send(
            QueryView {
                id,
                name: goals.last().name,
                qtype: goals.last().qtype,
                qclass: CLASS_IN,
                nameserver,
            },
        ),
        ResolutionView::Done(outcome) => ActionView::Finish(outcome),
    }
}

/// The state after a reply with the given reading; `root` is the root
/// nameserver at which a nameserver's own address is looked up, where the
/// reading asks for that.
///
/// An address answers the goal on top. If that was the name first asked
/// about, the resolution ends with it; otherwise it is the address of the
/// nameserver that the goal below was waiting for, and that goal goes on
/// there. A failure ends the whole resolution, whichever goal it struck.
/// A referral moves the goal on top to the nameserver referred to. A
/// nameserver without address becomes a goal of its own, of type A, asked
/// from `root` down.
pub open spec fn follow(
    state: ResolutionView,
    reading: VerdictView,
    root: Seq<char>,
) -> ResolutionView {
    match state {
        ResolutionView::Done(_) => state,
        ResolutionView::Asking { goals, nameserver } => match reading {
            VerdictView::Answer(address) => if goals.len() <= 1 {
                ResolutionView::Done(OutcomeView::Resolved(address))
            } else {
                ResolutionView::Asking { goals: goals.drop_last(), nameserver: address }
            },
            VerdictView::Failure(failure) => ResolutionView::Done(OutcomeView::Failed(failure)),
            VerdictView::Referral(address) => ResolutionView::Asking { goals, nameserver: address },
            VerdictView::Lookup(name) => ResolutionView::Asking {
                goals: goals.push(GoalView { name, qtype: TYPE_A }),
                nameserver: root,
            },
        },
    }
}

/// The state after the reply `response` to the query that was due in
/// `state`.
pub open spec fn step(
    state: ResolutionView,
    response: ResponseView,
    root: Seq<char>,
) -> ResolutionView {
    follow(state, verdict(response), root)
}

/// A resolution in progress.
#[derive(Debug)]
pub struct Resolution {
    goals: Vec<Goal>,
    nameserver: String,
    outcome: Option<Outcome>,
}

impl View for Resolution {
    type V = ResolutionView;

    closed spec fn view(&self) -> ResolutionView {
        match self.outcome {
            Some(outcome) => ResolutionView::Done(outcome@),
            None => ResolutionView::Asking {
                goals: goals_view(self.goals@),
                nameserver: self.nameserver@,
            },
        }
    }
}

/// Starts resolving `fqdn` for records of type `qtype` at the nameserver
/// with the given IPv4 address.
pub fn resolve_iterative(fqdn: &str, qtype: u16, nameserver: &str) -> (resolution: Resolution)
    ensures
        resolution@ == start(fqdn@, qtype, nameserver@),
{
    let mut goals: Vec<Goal> = Vec::new();
    goals.push(Goal { name: fqdn.to_owned(), qtype });
    let resolution = Resolution { goals, nameserver: nameserver.to_owned(), outcome: None };
    assert(goals_view(resolution.goals@) =~= seq![GoalView { name: fqdn@, qtype }]);
    resolution
}

/// Starts resolving `fqdn` for records of type `qtype` at a root
/// nameserver picked at random.
pub fn resolve(fqdn: &str, qtype: u16) -> (resolution: Resolution)
    ensures
        resolution@ matches ResolutionView::Asking { nameserver, .. } && is_root(nameserver)
            && resolution@ == start(fqdn@, qtype, nameserver),
{
    resolve_iterative(fqdn, qtype, random_root())
}

impl Resolution {
    #[verifier::type_invariant]
    spec fn has_goal_while_asking(&self) -> bool {
        self.outcome is None ==> self.goals@.len() > 0
    }

    /// What to do next, where a query gets the transaction id `id`.
    pub fn action_with_id(&self, id: u16) -> (action: Action)
        ensures
            action@ == action_of(self@, id),
            self@.wf(),
    {
        proof {
            use_type_invariant(self);
        }
        match &self.outcome {
            Some(Outcome::Resolved(address)) => Action::Finish(Outcome::Resolved(address.clone())),
            Some(Outcome::Failed(failure)) => Action::Finish(Outcome::Failed(*failure)),
            None => {
                let top = &self.goals[self.goals.len() - 1];
                Action::Send(
                    Query {
                        id,
                        name: top.name.clone(),
                        qtype: top.qtype,
                        qclass: CLASS_IN,
                        nameserver: self.nameserver.clone(),
                    },
                )
            },
        }
    }

    /// What to do next. A query gets a transaction id drawn at random;
    /// everything else is fixed by the state.
    pub fn action(&self) -> (action: Action)
        ensures
            action@ == action_of(self@, action@.id()),
            self@.wf(),
    {
        let id = random_u16();
        self.action_with_id(id)
    }

    /// Takes the reply to the query that was due and moves on. Where the
    /// reply names a nameserver without address, that name is resolved
    /// from `root` down before anything else. After the end of the
    /// resolution a reply changes nothing.
    pub fn advance(self, response: &Response, root: &str) -> (next: Resolution)
        ensures
            next@ == step(self@, response@, root@),
            next@.wf(),
    {
        proof {
            use_type_invariant(&self);
        }
        if self.outcome.is_some() {
            return self;
        }
        let ghost before = goals_view(self.goals@);
        let Resolution { goals, nameserver, outcome } = self;
        let mut goals = goals;
        match classify(response) {
            Verdict::Answer(address) => {
                goals.pop();
                if goals.len() == 0 {
                    Resolution { goals, nameserver, outcome: Some(Outcome::Resolved(address)) }
                } else {
                    assert(goals_view(goals@) =~= before.drop_last());
                    Resolution { goals, nameserver: address, outcome: None }
                }
            },
            Verdict::Failure(failure) => {
                Resolution { goals, nameserver, outcome: Some(Outcome::Failed(failure)) }
            },
            Verdict::Referral(address) => Resolution { goals, nameserver: address, outcome: None },
            Verdict::Lookup(name) => {
                goals.push(Goal { name, qtype: TYPE_A });
                assert(goals_view(goals@) =~= before.push(
                    GoalView { name: name@, qtype: TYPE_A },
                ));
                Resolution { goals, nameserver: root.to_owned(), outcome: None }
            },
        }
    }

    /// Takes the reply to the query that was due and moves on. Where the
    /// reply names a nameserver without address, that name is resolved
    /// first, starting at a root nameserver picked at random.
    pub fn receive(self, response: &Response) -> (next: Resolution)
        ensures
            exists|root: Seq<char>|
                is_root(root) && next@ == #[trigger] step(self@, response@, root),
            next@.wf(),
    {
        let root = random_root();
        self.advance(response, root)
    }

    /// How the resolution ended, once it has.
    pub fn outcome(&self) -> (outcome: Option<Outcome>)
        ensures
            match self@ {
                ResolutionView::Done(ended) => outcome matches Some(o) && o@ == ended,
                ResolutionView::Asking { .. } => outcome is None,
            },
    {
        match &self.outcome {
            Some(Outcome::Resolved(address)) => Some(Outcome::Resolved(address.clone())),
            Some(Outcome::Failed(failure)) => Some(Outcome::Failed(*failure)),
            None => None,
        }
    }
}

/// A reply with an answer closes the goal it was asked for, whatever its
/// other sections hold: the resolution ends if that was the only goal, and
/// no further query is made for that goal otherwise.
pub proof fn lemma_answer_closes_goal(
    state: ResolutionView,
    response: ResponseView,
    root: Seq<char>,
)
    requires
        state.wf(),
        state is Asking,
        response.wf(),
        response.header.an_count > 0,
    ensures
        step(state, response, root) == follow(state, answer_verdict(response.resources[0]), root),
        step(state, response, root).depth() < state.depth(),
        state.depth() == 1 ==> step(state, response, root) is Done,
{
}

/// An error code ends the resolution. After a reply without answer whose
/// response code is not zero there is no result, the code is reported,
/// and no query follows: not then, and not after any further reply.
pub proof fn lemma_error_code_ends_resolution(
    state: ResolutionView,
    response: ResponseView,
    root: Seq<char>,
    id: u16,
)
    requires
        state is Asking,
        response.header.an_count == 0,
        response.header.spec_rcode() != 0,
    ensures
        step(state, response, root) == ResolutionView::Done(
            OutcomeView::Failed(Failure::ErrorCode(response.header.spec_rcode())),
        ),
        action_of(step(state, response, root), id) is Finish,
        forall|later: ResponseView, other: Seq<char>| #[trigger]
            step(step(state, response, root), later, other) == step(state, response, root),
{
}

/// The address of a nameserver is always asked for as type A. Where a
/// reply names a nameserver and has no additional section, the next query
/// asks for the records of type A of that nameserver's name, at the root
/// nameserver picked, whatever record type the resolution itself is after.
pub proof fn lemma_nameserver_lookup_asks_for_a(
    state: ResolutionView,
    response: ResponseView,
    root: Seq<char>,
    id: u16,
)
    requires
        state is Asking,
        response.wf(),
        response.header.an_count == 0,
        response.header.spec_rcode() == 0,
        response.header.ar_count == 0,
        exists|i: int|
            0 <= i < response.authority().len() && is_nameserver(
                #[trigger] response.authority()[i],
            ),
    ensures
        action_of(step(state, response, root), id) matches ActionView::Send(query) && {
            &&& query.qtype == TYPE_A
            &&& query.qclass == CLASS_IN
            &&& query.nameserver == root
            &&& query.id == id
            &&& exists|first: int| #[trigger]
                is_first_match(response.authority(), Wanted::Nameserver, first) && query.name
                    == response.authority()[first].nsdname
        },
        step(state, response, root).depth() == state.depth() + 1,
{
    let i = choose|i: int|
        0 <= i < response.authority().len() && is_nameserver(#[trigger] response.authority()[i]);
    lemma_first_match_exists(response.authority(), Wanted::Nameserver, i);
}

} // verus!
