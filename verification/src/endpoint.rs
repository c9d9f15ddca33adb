//! Transport resolver: computes the local endpoint address for control
//! traffic. The address is a pure function of the transport kind (named
//! pipe or domain socket) and the build variant, so that a development
//! build and a production build never collide on the same endpoint.

use vstd::prelude::*;

verus! {

/// The kind of local point-to-point transport the platform offers.
#[derive(Clone, Copy, PartialEq, Eq, Structural, Debug)]
pub enum TransportKind {
    /// A named pipe (the pipe-based platform family).
    Pipe,
    /// A domain socket (everywhere else).
    Socket,
}

/// Which build of the application is running.
#[derive(Clone, Copy, PartialEq, Eq, Structural, Debug)]
pub enum BuildVariant {
    Development,
    Production,
}

impl TransportKind {
    /// The endpoint address for this transport and build variant.
    pub open spec fn spec_endpoint(self, variant: BuildVariant) -> Seq<char> {
        match (self, variant) {
            (TransportKind::Pipe, BuildVariant::Development) => "\\\\.\\pipe\\stelliberty_dev"@,
            (TransportKind::Pipe, BuildVariant::Production) => "\\\\.\\pipe\\stelliberty"@,
            (TransportKind::Socket, BuildVariant::Development) => "/tmp/stelliberty_dev.sock"@,
            (TransportKind::Socket, BuildVariant::Production) => "/tmp/stelliberty.sock"@,
        }
    }
}

/// Law: on either transport, the development and production builds
/// resolve to distinct endpoint addresses, so concurrent instances
/// never cross-wire their control traffic.
pub proof fn lemma_variant_endpoints_distinct(t: TransportKind)
    ensures
        t.spec_endpoint(BuildVariant::Development) != t.spec_endpoint(BuildVariant::Production),
{
    reveal_strlit("\\\\.\\pipe\\stelliberty_dev");
    reveal_strlit("\\\\.\\pipe\\stelliberty");
    reveal_strlit("/tmp/stelliberty_dev.sock");
    reveal_strlit("/tmp/stelliberty.sock");
    assert("\\\\.\\pipe\\stelliberty_dev"@.len() != "\\\\.\\pipe\\stelliberty"@.len());
    assert("/tmp/stelliberty_dev.sock"@.len() != "/tmp/stelliberty.sock"@.len());
}

} // verus!
