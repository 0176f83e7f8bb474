//! A resolution against a network that always gives the same reply to the
//! same question: what it comes to, and that it comes to the same thing
//! every time.

use crate::engine::{start, step, ResolutionView};
use crate::message::ResponseView;
use crate::roots::is_root;
use vstd::prelude::*;

verus! {

/// A network that does not change: the reply depends on which nameserver
/// is asked, about which name, for which record type, and on nothing else.
pub type Network = spec_fn(Seq<char>, Seq<char>, u16) -> ResponseView;

/// The reply of `network` to the query that is due in `state`.
pub open spec fn reply(network: Network, state: ResolutionView) -> ResponseView {
    match state {
        ResolutionView::Asking { goals, nameserver } => network(
            nameserver,
            goals.last().name,
            goals.last().qtype,
        ),
        ResolutionView::Done(_) => arbitrary(),
    }
}

/// The state that a resolution reaches from `state` when `network` answers
/// its queries. It makes at most as many round trips as `roots` is long;
/// the root nameserver picked after the first reply is `roots[0]`, the one
/// picked after the second `roots[1]`, and so on.
pub open spec fn run(
    network: Network,
    state: ResolutionView,
    roots: Seq<Seq<char>>,
) -> ResolutionView
    decreases roots.len(),
{
    if roots.len() == 0 || state is Done {
        state
    } else {
        run(network, step(state, reply(network, state), roots[0]), roots.drop_first())
    }
}

/// All root nameservers give the same reply to the same question.
pub open spec fn roots_answer_alike(network: Network) -> bool {
    forall|a: Seq<char>, b: Seq<char>, name: Seq<char>, qtype: u16|
        is_root(a) && is_root(b) ==> #[trigger] network(a, name, qtype) == #[trigger] network(
            b,
            name,
            qtype,
        )
}

/// Every entry of `roots` is the address of a root nameserver.
pub open spec fn all_roots(roots: Seq<Seq<char>>) -> bool {
    forall|i: int| 0 <= i < roots.len() ==> is_root(#[trigger] roots[i])
}

/// Two states differ at most in which root nameserver is asked next.
pub open spec fn alike(a: ResolutionView, b: ResolutionView) -> bool {
    match (a, b) {
        (ResolutionView::Done(x), ResolutionView::Done(y)) => x == y,
        (
            ResolutionView::Asking { goals: g, nameserver: n },
            ResolutionView::Asking { goals: h, nameserver: m },
        ) => g == h && (n == m || (is_root(n) && is_root(m))),
        _ => false,
    }
}

/// Two runs over the same network that start in like states and both come
/// to an end come to the same end, whichever root nameservers are picked on
/// the way and however many more round trips either was allowed.
pub proof fn lemma_like_runs_end_alike(
    network: Network,
    a: ResolutionView,
    b: ResolutionView,
    roots_a: Seq<Seq<char>>,
    roots_b: Seq<Seq<char>>,
)
    requires
        roots_answer_alike(network),
        alike(a, b),
        all_roots(roots_a),
        all_roots(roots_b),
        run(network, a, roots_a) is Done,
        run(network, b, roots_b) is Done,
    ensures
        run(network, a, roots_a) == run(network, b, roots_b),
    decreases roots_a.len(),
{
    if a is Asking {
        let next_a = step(a, reply(network, a), roots_a[0]);
        let next_b = step(b, reply(network, b), roots_b[0]);
        lemma_like_runs_end_alike(
            network,
            next_a,
            next_b,
            roots_a.drop_first(),
            roots_b.drop_first(),
        );
    }
}

/// Resolving the same name for the same record type twice over a network
/// that does not change, and whose root nameservers answer alike, gives
/// the same result both times: the root nameservers picked at random do not
/// matter, neither at the start nor on the way, and transaction ids never
/// enter into it.
pub proof fn lemma_resolve_is_repeatable(
    network: Network,
    name: Seq<char>,
    qtype: u16,
    first_root: Seq<char>,
    first_roots: Seq<Seq<char>>,
    second_root: Seq<char>,
    second_roots: Seq<Seq<char>>,
)
    requires
        roots_answer_alike(network),
        is_root(first_root),
        is_root(second_root),
        all_roots(first_roots),
        all_roots(second_roots),
        run(network, start(name, qtype, first_root), first_roots) is Done,
        run(network, start(name, qtype, second_root), second_roots) is Done,
    ensures
        run(network, start(name, qtype, first_root), first_roots) == run(
            network,
            start(name, qtype, second_root),
            second_roots,
        ),
{
    lemma_like_runs_end_alike(
        network,
        start(name, qtype, first_root),
        start(name, qtype, second_root),
        first_roots,
        second_roots,
    );
}

} // verus!
