//! Which tunnel a request is for: the subdomain in its `host` field.

use vstd::prelude::*;

use crate::text::{
    after_first, before_first, ends_with, law_split, lemma_position_is, same, split_first,
    strip_suffix,
};

verus! {

/// What stands behind a subdomain in a host.
pub open spec fn dotted(domain: Seq<char>) -> Seq<char> {
    "."@ + domain
}

/// The subdomain that a host names: `<subdomain>.<domain>` under the server's own domain, the
/// first label of a host under another one. The domain itself names none, nor does an empty host.
pub open spec fn subdomain_of(host: Seq<char>, domain: Seq<char>) -> Option<Seq<char>> {
    if host == domain || host.len() == 0 {
        None
    } else if ends_with(host, dotted(domain)) {
        Some(host.take(host.len() - dotted(domain).len()))
    } else {
        Some(before_first(host, '.'))
    }
}

/// The subdomain that a host names.
pub fn subdomain(host: &String, domain: &String) -> (name: Option<String>)
    ensures
        crate::text::optional(name) == subdomain_of(host@, domain@),
{
    if same(host.as_str(), domain.as_str()) || host.as_str().is_empty() {
        return None;
    }
    let suffix = ".".to_owned().concat(domain.as_str());
    match strip_suffix(host.as_str(), suffix.as_str()) {
        Some(name) => Some(name),
        None => {
            let (label, _) = split_first(host.as_str(), '.');
            Some(label)
        },
    }
}

/// A tunnel is reached under its own name and the server's domain, whatever the name.
pub proof fn law_reached_by_name(name: Seq<char>, domain: Seq<char>)
    ensures
        subdomain_of(name + dotted(domain), domain) == Some(name),
{
    let suffix = dotted(domain);
    let host = name + suffix;
    reveal_strlit(".");
    assert(suffix.len() == domain.len() + 1);
    assert(host.skip(host.len() - suffix.len()) =~= suffix);
    assert(host.take(host.len() - suffix.len()) =~= name);
}

/// Under another domain, or with a port behind it, a host leads to its first label.
pub proof fn law_reached_by_label(name: Seq<char>, rest: Seq<char>, domain: Seq<char>)
    requires
        !name.contains('.'),
        name + dotted(rest) != domain,
        !ends_with(name + dotted(rest), dotted(domain)),
    ensures
        subdomain_of(name + dotted(rest), domain) == Some(name),
{
    let host = name + dotted(rest);
    reveal_strlit(".");
    assert(host[name.len() as int] == '.');
    assert forall|j: int| 0 <= j < name.len() implies host[j] != '.' by {
        assert(name.contains(name[j]));
    }
    lemma_position_is(host, '.', name.len() as int);
    assert(host.take(name.len() as int) =~= name);
}

/// A host leads to no tunnel only where it is empty or the server's own domain.
pub proof fn law_no_subdomain(host: Seq<char>, domain: Seq<char>)
    ensures
        subdomain_of(host, domain) is None <==> host == domain || host.len() == 0,
{
}

/// A host that ends in a dot and the server's domain names what stands before them, whole; any
/// other names what stands before its first dot, and one without a dot names itself.
pub proof fn law_subdomain(host: Seq<char>, domain: Seq<char>)
    ensures
        host == domain || host.len() == 0 ==> subdomain_of(host, domain) is None,
        subdomain_of(host, domain) matches Some(name) ==> {
            ||| host == name + "."@ + domain
            ||| host == name && !name.contains('.')
            ||| exists|rest: Seq<char>|
                host == #[trigger] (name + "."@ + rest) && !name.contains('.')
        },
{
    reveal_strlit(".");
    if let Some(name) = subdomain_of(host, domain) {
        if ends_with(host, dotted(domain)) {
            assert(host.skip(host.len() - dotted(domain).len()) == dotted(domain));
            assert(host =~= name + dotted(domain));
            assert(name + dotted(domain) =~= name + "."@ + domain);
        } else {
            law_split(host, '.');
            assert(!name.contains('.')) by {
                if name.contains('.') {
                    let j = choose|j: int| 0 <= j < name.len() && name[j] == '.';
                    assert(before_first(host, '.')[j] != '.');
                }
            }
            if let Some(rest) = after_first(host, '.') {
                assert(seq!['.'] =~= "."@);
                assert(host == name + "."@ + rest);
            }
        }
    }
}

/// Two tunnels under the server's domain are never reached by the same host.
pub proof fn law_names_apart(one: Seq<char>, other: Seq<char>, domain: Seq<char>)
    requires
        one != other,
    ensures
        subdomain_of(one + "."@ + domain, domain) == Some(one),
        subdomain_of(one + "."@ + domain, domain) != subdomain_of(other + "."@ + domain, domain),
{
    law_reached_by_name(one, domain);
    law_reached_by_name(other, domain);
    assert(one + "."@ + domain =~= one + dotted(domain));
    assert(other + "."@ + domain =~= other + dotted(domain));
}

} // verus!
