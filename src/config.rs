//! The settings that a command-line client hands to a session.
use vstd::prelude::*;
use vstd::string::*;

use crate::session::DEFAULT_PORT;

verus! {

/// The decimal value of a string of digits.
pub open spec fn digits_value(s: Seq<char>) -> int
    decreases s.len(),
{
    if s.len() == 0 {
        0
    } else {
        digits_value(s.drop_last()) * 10 + (s.last() as int - '0' as int)
    }
}

/// Every character of `s` is a decimal digit.
pub open spec fn all_digits(s: Seq<char>) -> bool {
    forall|i: int| 0 <= i < s.len() ==> '0' <= #[trigger] s[i] <= '9'
}

/// The digits of a port text: what follows an optional leading `+`.
pub open spec fn port_digits(s: Seq<char>) -> Seq<char> {
    if s.len() > 0 && s[0] == '+' {
        s.drop_first()
    } else {
        s
    }
}

/// The port number that a text gives: an optional `+`, then at least one
/// decimal digit, and a value that fits in 16 bits.
pub open spec fn port_of_text(s: Seq<char>) -> Option<u16> {
    let d = port_digits(s);
    if d.len() > 0 && all_digits(d) && digits_value(d) <= 65535 {
        Some(digits_value(d) as u16)
    } else {
        None
    }
}

proof fn lemma_digits_value_grows(s: Seq<char>, k: int)
    requires
        all_digits(s),
        0 <= k <= s.len(),
    ensures
        0 <= digits_value(s.take(k)) <= digits_value(s),
    decreases s.len(),
{
    assert(s.take(s.len() as int) =~= s);
    if k < s.len() {
        let t = s.drop_last();
        assert(all_digits(t)) by {
            assert forall|i: int| 0 <= i < t.len() implies '0' <= #[trigger] t[i] <= '9' by {
                assert(t[i] == s[i]);
            }
        }
        lemma_digits_value_grows(t, k);
        assert(t.take(k) =~= s.take(k));
        lemma_digits_value_grows(t, t.len() as int);
        assert(t.take(t.len() as int) =~= t);
        assert(s[s.len() - 1] == s.last());
    } else if s.len() > 0 {
        let t = s.drop_last();
        assert(all_digits(t)) by {
            assert forall|i: int| 0 <= i < t.len() implies '0' <= #[trigger] t[i] <= '9' by {
                assert(t[i] == s[i]);
            }
        }
        lemma_digits_value_grows(t, t.len() as int);
        assert(t.take(t.len() as int) =~= t);
        assert(s[s.len() - 1] == s.last());
    }
}

/// Reads a port number from its decimal text, as `str::parse::<u16>` does.
pub fn parse_port(text: &str) -> (r: Option<u16>)
    ensures
        r == port_of_text(text@),
{
    let n = text.unicode_len();
    let mut i: usize = 0;
    if n > 0 && text.get_char(0) == '+' {
        i = 1;
    }
    let start = i;
    let ghost d = port_digits(text@);
    assert(d =~= text@.subrange(start as int, n as int));
    if start == n {
        return None;
    }
    let mut value: u32 = 0;
    while i < n
        invariant
            n == text@.len(),
            start <= i <= n,
            d == text@.subrange(start as int, n as int),
            d == port_digits(text@),
            forall|j: int| start <= j < i ==> '0' <= #[trigger] text@[j] <= '9',
            value as int == digits_value(d.take(i - start)),
            value <= 65535,
        decreases n - i,
    {
        let c = text.get_char(i);
        if c < '0' || c > '9' {
            assert(d[i - start] == c);
            return None;
        }
        let digit = (c as u32) - ('0' as u32);
        assert(d.take(i - start + 1).drop_last() =~= d.take(i - start));
        assert(d.take(i - start + 1).last() == c);
        if value > 6553 || value * 10 + digit > 65535 {
            proof {
                assert(value * 10 + digit > 65535) by (nonlinear_arith)
                    requires value > 6553 || value * 10 + digit > 65535, digit <= 9;
                assert(all_digits(d.take(i - start + 1))) by {
                    assert forall|j: int| 0 <= j < i - start + 1 implies '0' <= #[trigger] d.take(
                        i - start + 1,
                    )[j] <= '9' by {
                        assert(d.take(i - start + 1)[j] == text@[start + j]);
                    }
                }
                assert(digits_value(d.take(i - start + 1)) == value * 10 + digit);
                if all_digits(d) {
                    lemma_digits_value_grows(d, i - start + 1);
                    assert(d.take(i - start + 1).take(i - start + 1) =~= d.take(i - start + 1));
                }
            }
            return None;
        }
        value = value * 10 + digit;
        i = i + 1;
    }
    proof {
        assert(d.take(n - start) =~= d);
        assert forall|j: int| 0 <= j < d.len() implies '0' <= #[trigger] d[j] <= '9' by {
            assert(d[j] == text@[start + j]);
        }
    }
    Some(value as u16)
}

/// Configuration as read from a configuration file.
#[derive(Debug, PartialEq)]
pub struct FcpConfig {
    /// The hostname to connect to.
    pub fcp_hostname: Option<String>,
    /// The port number to connect to.
    pub fcp_port: Option<u16>,
}

impl FcpConfig {
    /// A configuration with the given settings.
    pub fn create(fcp_hostname: Option<String>, fcp_port: Option<u16>) -> (r: FcpConfig)
        ensures
            r.fcp_hostname == fcp_hostname,
            r.fcp_port == fcp_port,
    {
        FcpConfig { fcp_hostname, fcp_port }
    }

    /// The host to connect to: the configured one, else `localhost`.
    pub fn hostname_or_default(&self) -> (r: String)
        ensures
            r@ == match self.fcp_hostname {
                Some(h) => h@,
                None => "localhost"@,
            },
    {
        match &self.fcp_hostname {
            Some(h) => h.clone(),
            None => "localhost".to_owned(),
        }
    }

    /// The port to connect to: the configured one, else the default FCP port.
    pub fn port_or_default(&self) -> (r: u16)
        ensures
            r == match self.fcp_port {
                Some(p) => p,
                None => 9481,
            },
    {
        match self.fcp_port {
            Some(p) => p,
            None => DEFAULT_PORT,
        }
    }
}

/// The port that a command line's port text selects: the number it gives,
/// or the default FCP port where it gives none.
pub fn port_or_default(text: &str) -> (r: u16)
    ensures
        r == match port_of_text(text@) {
            Some(p) => p,
            None => 9481,
        },
{
    match parse_port(text) {
        Some(p) => p,
        None => DEFAULT_PORT,
    }
}

} // verus!
