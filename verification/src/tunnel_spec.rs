//! What a user asks for on the command line: a local port, and a name for its tunnel.

use vstd::prelude::*;

use crate::decimal::{self, PortError};
use crate::text::{after_first, before_first, lemma_position_is, optional, split_first};

verus! {

/// A local port, and the name that its tunnel is to have, if the user gives one.
#[derive(Debug, PartialEq, Eq)]
pub struct TunnelSpec {
    pub port: u16,
    pub name: Option<String>,
}

/// What a `TunnelSpec` says.
pub struct TunnelSpecView {
    pub port: u16,
    pub name: Option<Seq<char>>,
}

impl View for TunnelSpec {
    type V = TunnelSpecView;

    open spec fn view(&self) -> TunnelSpecView {
        TunnelSpecView { port: self.port, name: optional(self.name) }
    }
}

/// The name in `port:name`: what stands between the first colon and the next one.
pub open spec fn name_in(spec: Seq<char>) -> Option<Seq<char>> {
    match after_first(spec, ':') {
        Some(rest) => Some(before_first(rest, ':')),
        None => None,
    }
}

/// What `port` or `port:name` asks for.
pub open spec fn spec_of(spec: Seq<char>) -> Result<TunnelSpecView, PortError> {
    match decimal::port_of(before_first(spec, ':')) {
        Ok(port) => Ok(TunnelSpecView { port, name: name_in(spec) }),
        Err(error) => Err(error),
    }
}

/// What `port` or `port:name` asks for.
pub fn parse(spec: &str) -> (res: Result<TunnelSpec, PortError>)
    ensures
        match res {
            Ok(parsed) => spec_of(spec@) == Ok::<TunnelSpecView, PortError>(parsed@),
            Err(error) => spec_of(spec@) == Err::<TunnelSpecView, PortError>(error),
        },
{
    let (front, rest) = split_first(spec, ':');
    let port = match decimal::read_port(front.as_str()) {
        Ok(port) => port,
        Err(error) => {
            return Err(error);
        },
    };
    let name = match rest {
        Some(rest) => {
            let (name, _) = split_first(rest.as_str(), ':');
            Some(name)
        },
        None => None,
    };
    Ok(TunnelSpec { port, name })
}

/// The name that a tunnel asks for: its own, or else the one that holds for all.
pub fn name_or_default(own: Option<String>, common: Option<String>) -> (name: Option<String>)
    ensures
        optional(name) == (if own is Some {
            optional(own)
        } else {
            optional(common)
        }),
{
    match own {
        Some(name) => Some(name),
        None => common,
    }
}

/// A port alone asks for that port and no name.
pub proof fn law_port_alone(port: u16)
    ensures
        spec_of(decimal::digits(port as nat)) == Ok::<TunnelSpecView, PortError>(
            TunnelSpecView { port, name: None },
        ),
{
    let spec = decimal::digits(port as nat);
    decimal::law_written_port_is_read(port);
    decimal::lemma_digits(port as nat);
    lemma_position_is(spec, ':', spec.len() as int);
    assert(spec.take(spec.len() as int) =~= spec);
}

/// A port, a colon and a name without colons ask for that port and that name.
pub proof fn law_port_and_name(port: u16, name: Seq<char>)
    requires
        !name.contains(':'),
    ensures
        spec_of(decimal::digits(port as nat) + ":"@ + name) == Ok::<TunnelSpecView, PortError>(
            TunnelSpecView { port, name: Some(name) },
        ),
{
    let front = decimal::digits(port as nat);
    let spec = front + ":"@ + name;
    decimal::law_written_port_is_read(port);
    decimal::lemma_digits(port as nat);
    reveal_strlit(":");
    assert(spec[front.len() as int] == ':');
    lemma_position_is(spec, ':', front.len() as int);
    assert(spec.take(front.len() as int) =~= front);
    assert(spec.skip(front.len() as int + 1) =~= name);
    assert forall|j: int| 0 <= j < name.len() implies name[j] != ':' by {
        assert(name.contains(name[j]));
    }
    lemma_position_is(name, ':', name.len() as int);
    assert(name.take(name.len() as int) =~= name);
}

/// Whatever stands before the first colon is read as the port, and whatever stands between it and
/// the next colon, or the end, is the name, as it is.
pub proof fn law_spec(front: Seq<char>, name: Seq<char>, rest: Seq<char>)
    requires
        !front.contains(':'),
        !name.contains(':'),
    ensures
        decimal::port_of(front) matches Ok(port) ==> {
            &&& spec_of(front) == Ok::<TunnelSpecView, PortError>(
                TunnelSpecView { port, name: None },
            )
            &&& spec_of(front + ":"@ + name) == Ok::<TunnelSpecView, PortError>(
                TunnelSpecView { port, name: Some(name) },
            )
            &&& spec_of(front + ":"@ + name + ":"@ + rest) == Ok::<TunnelSpecView, PortError>(
                TunnelSpecView { port, name: Some(name) },
            )
        },
        decimal::port_of(front) matches Err(error) ==> {
            &&& spec_of(front) == Err::<TunnelSpecView, PortError>(error)
            &&& spec_of(front + ":"@ + name) == Err::<TunnelSpecView, PortError>(error)
            &&& spec_of(front + ":"@ + name + ":"@ + rest) == Err::<TunnelSpecView, PortError>(
                error,
            )
        },
{
    reveal_strlit(":");
    assert forall|j: int| 0 <= j < front.len() implies front[j] != ':' by {
        assert(front.contains(front[j]));
    }
    assert forall|j: int| 0 <= j < name.len() implies name[j] != ':' by {
        assert(name.contains(name[j]));
    }
    let at = front.len() as int;
    lemma_position_is(front, ':', at);
    assert(front.take(at) =~= front);
    let one = front + ":"@ + name;
    assert(one[at] == ':');
    lemma_position_is(one, ':', at);
    assert(one.take(at) =~= front);
    assert(one.skip(at + 1) =~= name);
    lemma_position_is(name, ':', name.len() as int);
    assert(name.take(name.len() as int) =~= name);
    let two = front + ":"@ + name + ":"@ + rest;
    let tail = name + ":"@ + rest;
    assert(two[at] == ':');
    lemma_position_is(two, ':', at);
    assert(two.take(at) =~= front);
    assert(two.skip(at + 1) =~= tail);
    assert(tail[name.len() as int] == ':');
    lemma_position_is(tail, ':', name.len() as int);
    assert(tail.take(name.len() as int) =~= name);
}

/// What a user asks for says the port and the name, as they are.
pub proof fn law_spec_says(spec: TunnelSpec)
    ensures
        spec@.port == spec.port,
        spec.name matches Some(name) ==> spec@.name == Some(name@),
        spec.name is None ==> spec@.name is None,
{
}

} // verus!
