//! The contact page: the PGP key and the e-mail address.

use vstd::prelude::*;
use crate::text::{find, lemma_find_from, push_char, string_of, to_chars, find_at};

verus! {

broadcast use vstd::string::group_string_axioms;

/// A PGP key, by its fingerprint.
pub struct PgpKey(pub &'static str);

/// Where the key with this fingerprint is published.
pub open spec fn key_url(fingerprint: Seq<char>) -> Seq<char> {
    "https://keys.openpgp.org/vks/v1/by-fingerprint/"@ + fingerprint
}

/// The fingerprint in groups of four characters separated by spaces.
pub open spec fn spaced(s: Seq<char>) -> Seq<char>
    decreases s.len(),
{
    if s.len() == 0 {
        Seq::empty()
    } else {
        let i = s.len() - 1;
        let rest = spaced(s.drop_last());
        if i % 4 == 0 && i != 0 {
            rest.push(' ').push(s.last())
        } else {
            rest.push(s.last())
        }
    }
}

impl PgpKey {
    /// The URL of the key on keys.openpgp.org.
    pub fn url(&self) -> (r: String)
        ensures
            r@ == key_url(self.0@),
    {
        let mut r = "https://keys.openpgp.org/vks/v1/by-fingerprint/".to_owned();
        r.append(self.0);
        r
    }

    /// The fingerprint as displayed: in groups of four for readability.
    pub fn to_string(&self) -> (r: String)
        ensures
            r@ == spaced(self.0@),
    {
        let chars = to_chars(self.0);
        let mut r = String::new();
        let mut i: usize = 0;
        assert(chars@.take(0) =~= Seq::<char>::empty());
        while i < chars.len()
            invariant
                i <= chars@.len(),
                chars@ == self.0@,
                r@ == spaced(chars@.take(i as int)),
            decreases chars.len() - i,
        {
            assert(chars@.take(i + 1).drop_last() =~= chars@.take(i as int));
            if i % 4 == 0 && i != 0 {
                push_char(&mut r, ' ');
            }
            push_char(&mut r, chars[i]);
            i = i + 1;
        }
        assert(chars@.take(chars@.len() as int) =~= chars@);
        r
    }
}

/// An e-mail address.
pub struct EmailAddress(pub &'static str);

/// The text before and after the first `c` in `s`, if `c` occurs
/// (`str::split_once`).
pub open spec fn split_once(s: Seq<char>, c: char) -> Option<(Seq<char>, Seq<char>)> {
    match find(s, seq![c]) {
        Some(i) => Some((s.take(i), s.skip(i + 1))),
        None => None,
    }
}

/// How an address is displayed: the local part, the domain name, and the
/// top-level part after the first `.` of the domain (empty when the domain
/// has no `.`).
pub open spec fn address_parts(s: Seq<char>) -> (Seq<char>, Seq<char>, Seq<char>) {
    let (local, domain) = split_once(s, '@')->0;
    match split_once(domain, '.') {
        Some((name, tld)) => (local, name, tld),
        None => (local, domain, Seq::empty()),
    }
}

/// Law: the displayed parts of an address whose domain has a `.`, joined
/// again with `@` and `.`, give back the address.
pub proof fn lemma_address_parts_rejoin(s: Seq<char>)
    requires
        split_once(s, '@') matches Some((_, domain)) && split_once(domain, '.') is Some,
    ensures
        ({
            let (local, name, tld) = address_parts(s);
            local + seq!['@'] + name + seq!['.'] + tld == s
        }),
{
    lemma_find_from(s, seq!['@'], 0);
    let i = find(s, seq!['@'])->0;
    assert(s.subrange(i, i + 1) == seq!['@']);
    assert(s[i] == s.subrange(i, i + 1)[0]);
    let domain = s.skip(i + 1);
    lemma_find_from(domain, seq!['.'], 0);
    let k = find(domain, seq!['.'])->0;
    assert(domain.subrange(k, k + 1) == seq!['.']);
    assert(domain[k] == domain.subrange(k, k + 1)[0]);
    assert(domain.take(k) + seq!['.'] + domain.skip(k + 1) =~= domain);
    assert(s.take(i) + seq!['@'] + domain =~= s);
    let (local, name, tld) = address_parts(s);
    assert(local + seq!['@'] + name + seq!['.'] + tld =~= s.take(i) + seq!['@'] + (domain.take(k) + seq!['.'] + domain.skip(k + 1)));
}

/// The text before and after the first `c` in `h`.
fn split_once_at(h: &Vec<char>, c: char) -> (r: Option<(String, String)>)
    ensures
        r matches Some(p) ==> split_once(h@, c) == Some((p.0@, p.1@)),
        r is None ==> split_once(h@, c) is None,
{
    let pat: Vec<char> = vec![c];
    assert(pat@ =~= seq![c]);
    proof {
        lemma_find_from(h@, pat@, 0);
    }
    match find_at(h.as_slice(), pat.as_slice(), 0) {
        Some(i) => {
            let hl = h.len();
            assert(crate::text::occurs_at(h@, i as int, pat@));
            assert(i + 1 <= hl);
            let a = string_of(h.as_slice(), 0, i);
            let b = string_of(h.as_slice(), i + 1, h.len());
            assert(h@.subrange(0, i as int) =~= h@.take(i as int));
            assert(h@.subrange(i + 1, h@.len() as int) =~= h@.skip(i + 1));
            Some((a, b))
        },
        None => None,
    }
}

impl EmailAddress {
    /// The address as written.
    pub fn as_str(&self) -> (r: &'static str)
        ensures
            r@ == self.0@,
    {
        self.0
    }

    /// The address as displayed.
    pub fn to_string(&self) -> (r: String)
        ensures
            r@ == self.0@,
    {
        self.0.to_owned()
    }

    /// The local part, domain name and top-level part the address is
    /// displayed in. The address must hold an `@`.
    pub fn display_parts(&self) -> (r: (String, String, String))
        requires
            split_once(self.0@, '@') is Some,
        ensures
            (r.0@, r.1@, r.2@) == address_parts(self.0@),
    {
        let chars = to_chars(self.0);
        let (local, domain) = match split_once_at(&chars, '@') {
            Some(p) => p,
            None => {
                assert(false);
                return (String::new(), String::new(), String::new());
            },
        };
        let dchars = to_chars(domain.as_str());
        match split_once_at(&dchars, '.') {
            Some((name, tld)) => (local, name, tld),
            None => (local, domain, String::new()),
        }
    }
}

} // verus!
