//! Turning the fields of a Windows `.rdp` file into a destination.

use vstd::prelude::*;

use crate::config::{
    all_ascii_digits, decimal_value, first_index_of, lemma_first_index_of, parse_hostname_port_spec,
    parse_u16_spec, split_domain_spec,
};
use crate::destinations::push_str;
use crate::text::{chars_of, decimal_digit, decimal_string, push_char, push_decimal};

verus! {

/// A destination read from a `.rdp` file.
#[derive(Debug)]
pub struct RdpConnection {
    pub name: String,
    pub hostname: String,
    pub username: String,
}

/// The address: a non-default port is appended unless the address already
/// names one.
pub open spec fn rdp_hostname_spec(hostname: Seq<char>, port: u16) -> Seq<char> {
    if port != 0 && port != 3389 && first_index_of(hostname, ':') is None {
        hostname + seq![':'] + decimal_string(port as nat)
    } else {
        hostname
    }
}

/// The login: `DOMAIN\user` when the file names a domain.
pub open spec fn rdp_username_spec(user: Seq<char>, domain: Seq<char>) -> Seq<char> {
    if domain.len() == 0 {
        user
    } else {
        domain + seq!['\\'] + user
    }
}

fn has_colon(s: &str) -> (r: bool)
    ensures
        r == first_index_of(s@, ':') is Some,
{
    let chars = chars_of(s);
    for i in 0..chars.len()
        invariant
            chars@ == s@,
            forall|j: int| 0 <= j < i ==> chars@[j] != ':',
    {
        if chars[i] == ':' {
            proof {
                crate::config::lemma_first_index_of(s@, ':');
            }
            return true;
        }
    }
    proof {
        crate::config::lemma_first_index_of(s@, ':');
        match first_index_of(s@, ':') {
            Some(k) => {
                assert(chars@[k] != ':');
            },
            None => {},
        }
    }
    false
}

/// Builds the destination from what the `.rdp` parser found: the address,
/// user, domain and port, and the file's stem (its name without extension)
/// when that is valid text. The destination is named after the file, or
/// after its address when the stem is unavailable.
pub fn connection_from_fields(hostname: String, user: String, domain: String, port: u16, file_stem: Option<String>) -> (c: RdpConnection)
    ensures
        c.hostname@ == rdp_hostname_spec(hostname@, port),
        c.username@ == rdp_username_spec(user@, domain@),
        c.name@ == (match file_stem {
            Some(stem) => stem@,
            None => rdp_hostname_spec(hostname@, port),
        }),
{
    let hostname = if port != 0 && port != 3389 && !has_colon(hostname.as_str()) {
        let mut h = hostname;
        push_char(&mut h, ':');
        push_decimal(&mut h, port as u64);
        h
    } else {
        hostname
    };
    let username = if domain.as_str().is_empty() {
        user
    } else {
        let mut u = domain;
        push_char(&mut u, '\\');
        push_str(&mut u, user.as_str());
        u
    };
    let name = match file_stem {
        Some(stem) => stem,
        None => hostname.clone(),
    };
    RdpConnection { name, hostname, username }
}

proof fn lemma_decimal_string_parses(n: nat)
    ensures
        decimal_string(n).len() >= 1,
        decimal_string(n)[0] != '+',
        all_ascii_digits(decimal_string(n)),
        decimal_value(decimal_string(n)) == n,
    decreases n,
{
    if n >= 10 {
        lemma_decimal_string_parses(n / 10);
        let s = decimal_string(n);
        let prefix = decimal_string(n / 10);
        assert(s.drop_last() =~= prefix);
        assert(s.last() == decimal_digit((n % 10) as int));
        assert(s[0] == prefix[0]);
        assert forall|i: int| 0 <= i < s.len() implies crate::config::is_ascii_digit(#[trigger] s[i]) by {
            if i < prefix.len() {
                assert(s[i] == prefix[i]);
            }
        }
        assert(decimal_digit((n % 10) as int) as int == '0' as int + n % 10);
        assert(decimal_value(s) == decimal_value(prefix) * 10 + (s.last() as int - '0' as int));
        assert(n == (n / 10) * 10 + n % 10);
    } else {
        let s = decimal_string(n);
        assert(decimal_digit(n as int) as int == '0' as int + n);
        assert(s.drop_last() =~= Seq::<char>::empty());
        assert(decimal_value(s) == decimal_value(s.drop_last()) * 10 + (s.last() as int - '0' as int));
    }
}

/// A destination imported from a `.rdp` file connects to the file's port:
/// splitting its address gives back the file's host and port, the default
/// port when the file names none. (An address that already holds a colon
/// is kept as the file wrote it and is left out here.)
pub proof fn imported_address_keeps_its_port(hostname: Seq<char>, port: u16)
    requires
        first_index_of(hostname, ':') is None,
    ensures
        parse_hostname_port_spec(rdp_hostname_spec(hostname, port)) == (hostname, if port == 0 {
            3389u16
        } else {
            port
        }),
{
    lemma_first_index_of(hostname, ':');
    if port != 0 && port != 3389 {
        let digits = decimal_string(port as nat);
        let address = hostname + seq![':'] + digits;
        lemma_first_index_of(address, ':');
        assert(address[hostname.len() as int] == ':');
        match first_index_of(address, ':') {
            Some(i) => {
                if i < hostname.len() {
                    assert(address[i] == hostname[i]);
                }
                assert(i == hostname.len());
            },
            None => {},
        }
        assert(address.take(hostname.len() as int) =~= hostname);
        assert(address.skip(hostname.len() as int + 1) =~= digits);
        lemma_decimal_string_parses(port as nat);
        assert(parse_u16_spec(digits) == Some(port));
    }
}

/// A domain login imported from a `.rdp` file reaches the session as the
/// domain and user the file named: the joined `DOMAIN\user` splits back at
/// its first backslash. (A domain holding a backslash, or a user holding one
/// with no domain, would split elsewhere and is left out.)
pub proof fn imported_login_splits_back(user: Seq<char>, domain: Seq<char>)
    requires
        first_index_of(domain, '\\') is None,
        domain.len() == 0 ==> first_index_of(user, '\\') is None,
    ensures
        split_domain_spec(rdp_username_spec(user, domain)) == (domain, user),
{
    lemma_first_index_of(domain, '\\');
    if domain.len() == 0 {
        assert(Seq::<char>::empty() =~= user.take(0));
    } else {
        let login = domain + seq!['\\'] + user;
        lemma_first_index_of(login, '\\');
        assert(login[domain.len() as int] == '\\');
        match first_index_of(login, '\\') {
            Some(i) => {
                if i < domain.len() {
                    assert(login[i] == domain[i]);
                }
                assert(i == domain.len());
            },
            None => {},
        }
        assert(login.take(domain.len() as int) =~= domain);
        assert(login.skip(domain.len() as int + 1) =~= user);
    }
}

} // verus!
