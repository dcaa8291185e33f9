//! What the pairs of a query are for.
use crate::address::AddressView;
use crate::identity::parsed_uuid;
use crate::parse_url::{
    config_of, parts_config, with_pairs, ConfigView, UrlErrorView, UrlHostView,
    UrlPartsView,
};
use crate::percent::{form_pairs, text_decoded};
use vstd::prelude::*;
use vstd::utf8::encode_utf8;

verus! {

/// Keys and values.
pub type Pairs = Seq<(Seq<char>, Seq<char>)>;

/// Whether the pair `p` is an error: a password in the query, a value of `insecure` other than
/// `0` and `1`, or a client id that is not a UUID.
pub open spec fn is_mistake(p: (Seq<char>, Seq<char>)) -> bool {
    ||| p.0 == "password"@
    ||| p.0 == "insecure"@ && p.1 != "0"@ && p.1 != "1"@
    ||| p.0 == "client_id"@ && p.1.len() > 0 && parsed_uuid(p.1) is Err
}

/// Whether pair `i` is the last of the first `n` that has the key `key` and, for a client id, a
/// value.
pub open spec fn is_last(pairs: Pairs, n: nat, i: int, key: Seq<char>) -> bool {
    &&& 0 <= i < n
    &&& pairs[i].0 == key
    &&& key == "client_id"@ ==> pairs[i].1.len() > 0
    &&& forall|j: int|
        i < j < n && (#[trigger] pairs[j]).0 == key ==> key == "client_id"@ && pairs[j].1.len()
            == 0
}

/// Whether none of the first `n` pairs has the key `key` and, for a client id, a value.
pub open spec fn is_absent(pairs: Pairs, n: nat, key: Seq<char>) -> bool {
    forall|j: int|
        0 <= j < n && (#[trigger] pairs[j]).0 == key ==> key == "client_id"@ && pairs[j].1.len()
            == 0
}

proof fn keys_differ()
    ensures
        "sni"@ != "insecure"@,
        "sni"@ != "client_id"@,
        "sni"@ != "password"@,
        "insecure"@ != "client_id"@,
        "insecure"@ != "password"@,
        "client_id"@ != "password"@,
        "0"@ != "1"@,
{
    reveal_strlit("sni");
    reveal_strlit("insecure");
    reveal_strlit("client_id");
    reveal_strlit("password");
    reveal_strlit("0");
    reveal_strlit("1");
    assert("sni"@.len() == 3 && "insecure"@.len() == 8 && "client_id"@.len() == 9
        && "password"@.len() == 8);
    assert("insecure"@[0] == 'i' && "password"@[0] == 'p');
    assert("0"@[0] == '0' && "1"@[0] == '1');
}

/// A query is read exactly if no pair of it is an error. The first error is the one that is
/// told, and it says what is wrong with its pair.
pub proof fn the_first_mistake_is_told(pairs: Pairs, n: nat)
    requires
        n <= pairs.len(),
    ensures
        with_pairs(pairs, n) is Ok <==> forall|i: int|
            0 <= i < n ==> !is_mistake(#[trigger] pairs[i]),
        with_pairs(pairs, n) matches Err(e) ==> exists|i: int|
            {
                &&& 0 <= i < n
                &&& is_mistake(#[trigger] pairs[i])
                &&& forall|j: int| 0 <= j < i ==> !is_mistake(#[trigger] pairs[j])
                &&& pairs[i].0 == "password"@ ==> e == UrlErrorView::PasswordInQuery
                &&& pairs[i].0 == "insecure"@ ==> e == UrlErrorView::InvalidInsecure(pairs[i].1)
                &&& pairs[i].0 == "client_id"@ ==> e == UrlErrorView::InvalidClientId(
                    parsed_uuid(pairs[i].1)->Err_0,
                )
            },
    decreases n,
{
    keys_differ();
    if n > 0 {
        let m = (n - 1) as nat;
        the_first_mistake_is_told(pairs, m);
        let p = pairs[n - 1];
        if with_pairs(pairs, m) is Ok {
            assert(with_pairs(pairs, n) is Err <==> is_mistake(p));
        } else {
            let i = choose|i: int|
                {
                    &&& 0 <= i < m
                    &&& is_mistake(#[trigger] pairs[i])
                    &&& forall|j: int| 0 <= j < i ==> !is_mistake(#[trigger] pairs[j])
                    &&& pairs[i].0 == "password"@ ==> with_pairs(pairs, m)->Err_0
                        == UrlErrorView::PasswordInQuery
                    &&& pairs[i].0 == "insecure"@ ==> with_pairs(pairs, m)->Err_0
                        == UrlErrorView::InvalidInsecure(pairs[i].1)
                    &&& pairs[i].0 == "client_id"@ ==> with_pairs(pairs, m)->Err_0
                        == UrlErrorView::InvalidClientId(parsed_uuid(pairs[i].1)->Err_0)
                };
            assert(is_mistake(pairs[i]));
        }
    }
}

/// The keys of a query are independent of each other: each has the value of its last pair,
/// whatever other pairs stand before, between or behind, and none if it has no pair. An empty
/// client id counts as none.
pub proof fn keys_are_independent(pairs: Pairs, n: nat, i: int)
    requires
        n <= pairs.len(),
        with_pairs(pairs, n) is Ok,
    ensures
        ({
            let q = with_pairs(pairs, n)->Ok_0;
            &&& is_last(pairs, n, i, "sni"@) ==> q.sni == Some(pairs[i].1)
            &&& is_absent(pairs, n, "sni"@) ==> q.sni is None
            &&& is_last(pairs, n, i, "insecure"@) ==> q.insecure == (pairs[i].1 == "1"@)
            &&& is_absent(pairs, n, "insecure"@) ==> !q.insecure
            &&& is_last(pairs, n, i, "client_id"@) ==> parsed_uuid(pairs[i].1) == Ok::<
                Seq<u8>,
                uuid::Error,
            >(q.client_id->0) && q.client_id is Some
            &&& is_absent(pairs, n, "client_id"@) ==> q.client_id is None
        }),
    decreases n,
{
    keys_differ();
    if n > 0 {
        let m = (n - 1) as nat;
        keys_are_independent(pairs, m, i);
        let p = pairs[n - 1];
        assert(p == pairs[m as int]);
        assert(is_last(pairs, n, i, "sni"@) && i < m ==> is_last(pairs, m, i, "sni"@));
        assert(is_last(pairs, n, i, "insecure"@) && i < m ==> is_last(pairs, m, i, "insecure"@));
        assert(is_last(pairs, n, i, "client_id"@) && i < m ==> is_last(
            pairs,
            m,
            i,
            "client_id"@,
        ));
        assert(is_absent(pairs, n, "sni"@) ==> is_absent(pairs, m, "sni"@));
        assert(is_absent(pairs, n, "insecure"@) ==> is_absent(pairs, m, "insecure"@));
        assert(is_absent(pairs, n, "client_id"@) ==> is_absent(pairs, m, "client_id"@));
        if is_last(pairs, n, i, "sni"@) && i < m {
            assert(p.0 != "sni"@);
        }
        if is_last(pairs, n, i, "insecure"@) && i < m {
            assert(p.0 != "insecure"@);
        }
        if is_last(pairs, n, i, "client_id"@) && i < m {
            assert(p.0 != "client_id"@ || p.1.len() == 0);
        }
    }
}

/// A configuration is made of the server and the password as they are, of what the query says,
/// and of the decoded fragment, unless that is empty. It exists exactly if the query does.
pub proof fn configurations_hold_what_they_are_made_of(
    server: AddressView,
    password: Seq<char>,
    pairs: Pairs,
    fragment: Option<Seq<char>>,
)
    ensures
        ({
            let c = config_of(server, password, pairs, fragment);
            match with_pairs(pairs, pairs.len()) {
                Ok(q) => {
                    &&& c is Ok
                    &&& c->Ok_0.server == server
                    &&& c->Ok_0.password == password
                    &&& c->Ok_0.sni == q.sni
                    &&& c->Ok_0.insecure == q.insecure
                    &&& c->Ok_0.client_id == q.client_id
                    &&& c->Ok_0.display_name == if fragment is Some && text_decoded(
                        fragment->0,
                    ).len() > 0 {
                        Some(text_decoded(fragment->0))
                    } else {
                        None
                    }
                },
                Err(e) => c == Err::<ConfigView, UrlErrorView>(e),
            }
        }),
{
}

/// What the parts of a URL come to: the server has the host of the URL and its port, or port 443
/// if there is none; the password is the first credential, or the second if there is no first,
/// decoded; another scheme is an error, and so is a URL without a host.
pub proof fn parts_come_to_a_configuration(u: UrlPartsView)
    ensures
        ({
            let port = if u.port is Some {
                u.port->0
            } else {
                443
            };
            let credential = if u.username.len() == 0 && u.password is Some {
                u.password->0
            } else {
                u.username
            };
            let query = if u.query is Some {
                u.query->0
            } else {
                Seq::empty()
            };
            let c = parts_config(u);
            let made = |server: AddressView|
                config_of(
                    server,
                    text_decoded(credential),
                    form_pairs(encode_utf8(query)),
                    u.fragment,
                );
            if u.scheme != "anytls"@ {
                c == Err::<ConfigView, UrlErrorView>(UrlErrorView::Scheme)
            } else {
                match u.host {
                    UrlHostView::Domain(name) => c == made(AddressView::DomainAddress(name, port)),
                    UrlHostView::Ipv4(ip) => c == made(AddressView::Ipv4Address(ip, port)),
                    UrlHostView::Ipv6(ip) => c == made(AddressView::Ipv6Address(ip, port)),
                    UrlHostView::Missing => c == Err::<ConfigView, UrlErrorView>(
                        UrlErrorView::MissingHost,
                    ),
                }
            }
        }),
{
    if u.username.len() == 0 {
        assert(u.username =~= Seq::<char>::empty());
    }
}

} // verus!
