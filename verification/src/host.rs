//! The name under which this host is reached, as it is printed in URLs.
//!
//! Order: the environment, the configuration, the host's full name, its short
//! name, `localhost`.

use vstd::prelude::*;

use crate::db::opt_view;
use crate::paths::opt_str_view;
use crate::text;
use crate::text::trimmed;

verus! {

/// The text without white space around it, unless nothing is left.
pub open spec fn stated(s: Option<Seq<char>>) -> Option<Seq<char>> {
    match s {
        None => None,
        Some(t) => if trimmed(t).len() == 0 {
            None
        } else {
            Some(trimmed(t))
        },
    }
}

fn trim_stated(s: Option<&str>) -> (r: Option<String>)
    ensures
        opt_view(r) == stated(opt_str_view(s)),
{
    match s {
        None => None,
        Some(t) => {
            let v: String = text::trim(t);
            if v.as_str().is_empty() {
                None
            } else {
                Some(v)
            }
        },
    }
}

/// What a run of `hostname` that printed `stdout` says, or none where it failed or
/// printed nothing.
pub fn hostname_output(success: bool, stdout: &str) -> (r: Option<String>)
    ensures
        opt_view(r) == if success {
            stated(Some(stdout@))
        } else {
            None
        },
{
    if !success {
        return None;
    }
    trim_stated(Some(stdout))
}

/// The host's name in URLs.
pub open spec fn public_host(
    env: Option<Seq<char>>,
    configured: Option<Seq<char>>,
    fqdn: Option<Seq<char>>,
    short: Option<Seq<char>>,
) -> Seq<char> {
    if stated(env) is Some {
        stated(env)->0
    } else if stated(configured) is Some {
        stated(configured)->0
    } else if fqdn is Some && fqdn->0.contains('.') {
        fqdn->0
    } else if short is Some && short->0.len() > 0 {
        short->0
    } else {
        "localhost"@
    }
}

/// The host's name in URLs: what the environment says, else what the configuration
/// says, else the full name where it has a dot, else the short name.
pub fn resolve_public_host(
    env: Option<&str>,
    configured: Option<&str>,
    fqdn: Option<&str>,
    short: Option<&str>,
) -> (r: String)
    ensures
        r@ == public_host(
            opt_str_view(env),
            opt_str_view(configured),
            opt_str_view(fqdn),
            opt_str_view(short),
        ),
{
    match trim_stated(env) {
        Some(h) => {
            return h;
        },
        None => {},
    }
    match trim_stated(configured) {
        Some(h) => {
            return h;
        },
        None => {},
    }
    match fqdn {
        Some(h) => {
            if text::contains_char(h, '.') {
                return text::owned(h);
            }
        },
        None => {},
    }
    match short {
        Some(h) => {
            if !h.is_empty() {
                return text::owned(h);
            }
        },
        None => {},
    }
    text::owned("localhost")
}

/// The host's name in URLs is never empty.
pub proof fn lemma_public_host_is_not_empty(
    env: Option<Seq<char>>,
    configured: Option<Seq<char>>,
    fqdn: Option<Seq<char>>,
    short: Option<Seq<char>>,
)
    ensures
        public_host(env, configured, fqdn, short).len() > 0,
{
    reveal_strlit("localhost");
}

/// The answer that was kept, else the one that is given now.
pub open spec fn first_answer(kept: Option<Seq<char>>, answer: Seq<char>) -> Seq<char> {
    match kept {
        Some(h) => h,
        None => answer,
    }
}

/// The host's name in URLs as it was first resolved, which is kept.
pub fn remembered_public_host(
    kept: &mut Option<String>,
    env: Option<&str>,
    configured: Option<&str>,
    fqdn: Option<&str>,
    short: Option<&str>,
) -> (r: String)
    ensures
        r@ == first_answer(
            opt_view(*old(kept)),
            public_host(
                opt_str_view(env),
                opt_str_view(configured),
                opt_str_view(fqdn),
                opt_str_view(short),
            ),
        ),
        opt_view(*final(kept)) == Some(r@),
{
    match kept {
        Some(h) => {
            return h.clone();
        },
        None => {},
    }
    let h: String = resolve_public_host(env, configured, fqdn, short);
    *kept = Some(h.clone());
    h
}

/// Once an answer is kept, every later one is the same, whatever the environment,
/// the configuration and the host then say.
pub proof fn lemma_first_answer_stands(
    kept: Option<Seq<char>>,
    answer: Seq<char>,
    later: Seq<char>,
)
    ensures
        first_answer(Some(first_answer(kept, answer)), later) == first_answer(kept, answer),
{
}

/// What the environment states stands, else what the configuration states, each
/// without the white space around it; blank text states nothing.
pub proof fn lemma_stated_host_stands(
    a: Seq<char>,
    host: Seq<char>,
    b: Seq<char>,
    env: Option<Seq<char>>,
    configured: Option<Seq<char>>,
    fqdn: Option<Seq<char>>,
    short: Option<Seq<char>>,
)
    requires
        forall|i: int| 0 <= i < a.len() ==> text::is_space(#[trigger] a[i]),
        forall|i: int| 0 <= i < b.len() ==> text::is_space(#[trigger] b[i]),
        host.len() > 0,
        !text::is_space(host[0]),
        !text::is_space(host.last()),
    ensures
        public_host(Some(a + host + b), configured, fqdn, short) == host,
        public_host(None, Some(a + host + b), fqdn, short) == host,
        public_host(Some(a + b), configured, fqdn, short) == public_host(
            None,
            configured,
            fqdn,
            short,
        ),
        public_host(env, Some(a + b), fqdn, short) == public_host(env, None, fqdn, short),
{
    let none = Seq::<char>::empty();
    text::lemma_trimmed_around(a, host, b);
    text::lemma_trimmed_around(a, none, b);
    assert(a + none + b =~= a + b);
}

/// Where nothing is stated, the host's full name stands if it has a dot, else its short
/// name if it has one, else `localhost`.
pub proof fn lemma_found_host_stands(fqdn: Seq<char>, short: Option<Seq<char>>, name: Seq<char>)
    requires
        name.len() > 0,
    ensures
        fqdn.contains('.') ==> public_host(None, None, Some(fqdn), short) == fqdn,
        !fqdn.contains('.') ==> public_host(None, None, Some(fqdn), Some(name)) == name,
        public_host(None, None, None, Some(name)) == name,
        !fqdn.contains('.') ==> public_host(None, None, Some(fqdn), None) == "localhost"@,
        public_host(None, None, None, None) == "localhost"@,
        public_host(None, None, None, Some(Seq::empty())) == "localhost"@,
{
}

/// What `hostname` printed is taken without the white space around it.
pub proof fn lemma_stated(a: Seq<char>, host: Seq<char>, b: Seq<char>)
    requires
        forall|i: int| 0 <= i < a.len() ==> text::is_space(#[trigger] a[i]),
        forall|i: int| 0 <= i < b.len() ==> text::is_space(#[trigger] b[i]),
        host.len() > 0,
        !text::is_space(host[0]),
        !text::is_space(host.last()),
    ensures
        stated(Some(a + host + b)) == Some(host),
        stated(Some(a + b)) is None,
        stated(None) is None,
{
    let none = Seq::<char>::empty();
    text::lemma_trimmed_around(a, host, b);
    text::lemma_trimmed_around(a, none, b);
    assert(a + none + b =~= a + b);
}

/// The first answer is the one that is given, and what is kept is given again.
pub proof fn lemma_first_answer(answer: Seq<char>, kept: Seq<char>)
    ensures
        first_answer(None, answer) == answer,
        first_answer(Some(kept), answer) == kept,
{
}

} // verus!
