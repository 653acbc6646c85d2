//! Nothing waits for ever: every job on the network ends after a bounded number of steps,
//! whatever arrives in between.
//!
//! For each job there is a number of steps that it may still wait, and each step that waits
//! lowers it.

use vstd::prelude::*;

use crate::net::connect;
use crate::net::connect::{
    ConnectView, DataTestView, HandshakeTestView, DATA_LIMIT, SETTLE_LIMIT,
};
use crate::net::dhcp;
use crate::net::jobs;
use crate::net::jobs::{PingView, StepView, SHORT_LIMIT};
use crate::net::lookup;
use crate::net::lookup::{DhcpExchangeView, DnsQueryView, LONG_LIMIT};
use crate::net::selftest;
use crate::net::selftest::{LoopbackTestView, SELFTEST_LIMIT};
use crate::net::stack::StackModel;

verus! {

/// How many of `limit` steps are left after `attempt` of them.
pub open spec fn left(limit: u32, attempt: u32) -> nat {
    if attempt < limit {
        (limit - attempt) as nat
    } else {
        0
    }
}

/// Resolving an address ends: past the limit, no step waits.
pub proof fn resolving_ends(m: StackModel, ip: Seq<u8>, attempt: u32)
    ensures
        jobs::resolving(m, ip, attempt) is Wait ==> attempt < SHORT_LIMIT,
        jobs::hopping(m, ip, attempt) is Wait ==> attempt < SHORT_LIMIT,
{
}

/// How many steps a ping may still wait.
pub open spec fn ping_left(job: PingView) -> nat {
    match job {
        PingView::Resolving { attempt, .. } => SHORT_LIMIT as nat + 1 + left(SHORT_LIMIT, attempt),
        PingView::Waiting { attempt, .. } => left(SHORT_LIMIT, attempt),
    }
}

/// A ping ends.
pub proof fn ping_ends(m: StackModel, job: PingView)
    ensures
        jobs::pinging(m, job).2 is Wait ==> ping_left(jobs::pinging(m, job).1) < ping_left(job),
{
}

/// How many steps the opening of a connection may still wait.
pub open spec fn connect_left(job: ConnectView) -> nat {
    match job {
        ConnectView::Resolving { attempt, .. } => SHORT_LIMIT as nat + 1 + left(
            SHORT_LIMIT,
            attempt,
        ),
        ConnectView::Waiting { attempt, .. } => left(SHORT_LIMIT, attempt),
    }
}

/// The opening of a connection ends.
pub proof fn connecting_ends(m: StackModel, job: ConnectView)
    ensures
        connect::connecting(m, job).2 is Wait ==> connect_left(connect::connecting(m, job).1)
            < connect_left(job),
{
}

/// How many steps a name lookup may still wait. Each query may have to resolve the server.
pub open spec fn lookup_left(job: DnsQueryView) -> nat {
    left(LONG_LIMIT, job.attempt) * (SHORT_LIMIT as nat + 2) + match job.resolving {
        Some(tried) => left(SHORT_LIMIT, tried),
        None => SHORT_LIMIT as nat + 1,
    }
}

/// A name lookup ends.
pub proof fn lookup_ends(m: StackModel, job: DnsQueryView)
    requires
        job.resolving is Some ==> job.attempt < LONG_LIMIT,
    ensures
        lookup::looking_up(m, job).1 is Wait ==> lookup_left(lookup::looking_up(m, job).0)
            < lookup_left(job),
{
    let next = lookup::looking_up(m, job).0;
    if lookup::looking_up(m, job).1 is Wait {
        assert(job.attempt < LONG_LIMIT);
        if next.attempt != job.attempt {
            let rounds = left(LONG_LIMIT, next.attempt);
            let length = SHORT_LIMIT as nat + 2;
            assert(left(LONG_LIMIT, job.attempt) == rounds + 1);
            assert((rounds + 1) * length == rounds * length + length) by (nonlinear_arith);
        }
    }
}

/// How many steps a DHCP exchange may still wait: the first leg is followed by the second.
pub open spec fn lease_left(job: DhcpExchangeView) -> nat {
    left(LONG_LIMIT, job.attempt) + if job.want == dhcp::OFFER {
        LONG_LIMIT as nat + 1
    } else {
        0
    }
}

/// A DHCP exchange ends.
pub proof fn lease_ends(m: StackModel, job: DhcpExchangeView)
    ensures
        lookup::configuring(m, job).2 is Wait ==> lease_left(lookup::configuring(m, job).1)
            < lease_left(job),
{
}

/// A self-test ends.
pub proof fn selftest_ends(m: StackModel, job: LoopbackTestView)
    ensures
        selftest::testing(m, job).1 is Wait ==> left(
            SELFTEST_LIMIT,
            selftest::testing(m, job).0.attempt,
        ) < left(SELFTEST_LIMIT, job.attempt),
{
}

/// How many steps the handshake self-test may still wait.
pub open spec fn handshake_left(job: HandshakeTestView) -> nat {
    match job {
        HandshakeTestView::Connecting(c) => SETTLE_LIMIT as nat + 1 + connect_left(c),
        HandshakeTestView::Settling { attempt, .. } => left(SETTLE_LIMIT, attempt),
    }
}

/// The handshake self-test ends.
pub proof fn handshake_selftest_ends(m: StackModel, job: HandshakeTestView)
    ensures
        connect::testing_handshake(m, job).2 is Wait ==> handshake_left(
            connect::testing_handshake(m, job).1,
        ) < handshake_left(job),
{
    if let HandshakeTestView::Connecting(c) = job {
        connecting_ends(m, c);
    }
}

/// How many steps the data self-test may still wait.
pub open spec fn data_left(job: DataTestView) -> nat {
    match job {
        DataTestView::Connecting(c) => DATA_LIMIT as nat + SETTLE_LIMIT as nat + 2 + connect_left(
            c,
        ),
        DataTestView::Settling { attempt, .. } => DATA_LIMIT as nat + 1 + left(
            SETTLE_LIMIT,
            attempt,
        ),
        DataTestView::Waiting { attempt, .. } => left(DATA_LIMIT, attempt),
    }
}

/// The data self-test ends.
pub proof fn data_selftest_ends(m: StackModel, job: DataTestView, now: u64)
    ensures
        connect::testing_data(m, job, now).2 is Wait ==> data_left(
            connect::testing_data(m, job, now).1,
        ) < data_left(job),
{
    if let DataTestView::Connecting(c) = job {
        connecting_ends(m, c);
    }
}

} // verus!
