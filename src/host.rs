//! Validation of `host:port` addresses given on the command line.
use vstd::prelude::*;
use vstd::string::{StrSliceExecFns, StringExecFns};

verus! {

/// A character allowed in the host part: an ASCII letter or digit, `.` or `-`.
pub open spec fn is_host_char(c: char) -> bool {
    ('a' <= c && c <= 'z') || ('A' <= c && c <= 'Z') || ('0' <= c && c <= '9') || c == '.' || c == '-'
}

pub open spec fn is_digit(c: char) -> bool {
    '0' <= c && c <= '9'
}

/// The number that a string of decimal digits writes.
pub open spec fn digits_value(s: Seq<char>) -> nat
    decreases s.len(),
{
    if s.len() == 0 {
        0
    } else {
        digits_value(s.drop_last()) * 10 + (s.last() as nat - '0' as nat) as nat
    }
}

/// `s` is a host, a colon, and a port of one to five digits at most 65535.
pub open spec fn host_url_at(s: Seq<char>, colon: int) -> bool {
    &&& 0 < colon < s.len() - 1
    &&& s.len() - colon - 1 <= 5
    &&& s[colon] == ':'
    &&& forall|j: int| 0 <= j < colon ==> is_host_char(#[trigger] s[j])
    &&& forall|j: int| colon < j < s.len() ==> is_digit(#[trigger] s[j])
    &&& digits_value(s.subrange(colon + 1, s.len() as int)) <= 65535
}

proof fn lemma_digits_prefix(s: Seq<char>, m: int)
    requires
        0 <= m <= s.len(),
        forall|j: int| 0 <= j < s.len() ==> is_digit(#[trigger] s[j]),
    ensures
        digits_value(s.subrange(0, m)) <= digits_value(s),
    decreases s.len(),
{
    if m < s.len() {
        let init = s.drop_last();
        assert forall|j: int| 0 <= j < init.len() implies is_digit(#[trigger] init[j]) by {
            assert(init[j] == s[j]);
        }
        lemma_digits_prefix(init, m);
        assert(init.subrange(0, m) =~= s.subrange(0, m));
    } else {
        assert(s.subrange(0, m) =~= s);
    }
}

pub open spec fn is_host_url(s: Seq<char>) -> bool {
    exists|colon: int| host_url_at(s, colon)
}

/// Why an address was refused.
#[derive(Clone, Debug, PartialEq)]
pub struct HostParseError {
    /// The text that was refused.
    pub input: String,
}

/// The recognizer of `host:port` addresses.
pub struct IpParser;

impl IpParser {
    /// Whether `input` is a `host:port` address.
    pub fn accepts(input: &str) -> (r: bool)
        ensures
            r == is_host_url(input@),
    {
        let n = input.unicode_len();
        let mut i: usize = 0;
        while i < n && is_host_char_exec(input.get_char(i))
            invariant
                n == input@.len(),
                i <= n,
                forall|j: int| 0 <= j < i ==> is_host_char(#[trigger] input@[j]),
            decreases n - i,
        {
            i = i + 1;
        }
        let colon = i;
        if colon == 0 || colon >= n || n - colon < 2 || n - colon > 6 || input.get_char(colon) != ':' {
            proof {
                if is_host_url(input@) {
                    let c = choose|c: int| host_url_at(input@, c);
                    // The colon is the first character that is not a host character.
                    assert(!is_host_char(input@[c]));
                    if c < colon {
                        assert(is_host_char(input@[c]));
                    }
                    if c > colon {
                        assert(is_host_char(input@[colon as int]));
                    }
                }
            }
            return false;
        }
        let mut k: usize = colon + 1;
        let mut value: u64 = 0;
        assert(input@.subrange(colon + 1, k as int) =~= Seq::<char>::empty());
        while k < n
            invariant
                n == input@.len(),
                colon < k <= n,
                0 < colon,
                input@[colon as int] == ':',
                forall|j: int| 0 <= j < colon ==> is_host_char(#[trigger] input@[j]),
                forall|j: int| colon < j < k ==> is_digit(#[trigger] input@[j]),
                value as nat == digits_value(input@.subrange(colon + 1, k as int)),
                value <= 65535,
            decreases n - k,
        {
            let ch = input.get_char(k);
            if !is_digit_exec(ch) {
                proof {
                    if is_host_url(input@) {
                        let c = choose|c: int| host_url_at(input@, c);
                        assert(!is_host_char(input@[c]));
                        if c < colon {
                            assert(is_host_char(input@[c]));
                        }
                        if c > colon {
                            assert(is_host_char(input@[colon as int]));
                        }
                        assert(c == colon as int);
                        assert(is_digit(input@[k as int]));
                    }
                }
                return false;
            }
            let next = value * 10 + (ch as u64 - '0' as u64);
            proof {
                let t = input@.subrange(colon + 1, k + 1);
                assert(t.drop_last() =~= input@.subrange(colon + 1, k as int));
            }
            if next > 65535 {
                proof {
                    if is_host_url(input@) {
                        let c = choose|c: int| host_url_at(input@, c);
                        assert(!is_host_char(input@[c]));
                        if c < colon {
                            assert(is_host_char(input@[c]));
                        }
                        if c > colon {
                            assert(is_host_char(input@[colon as int]));
                        }
                        assert(c == colon as int);
                        let full = input@.subrange(colon + 1, n as int);
                        assert forall|j: int| 0 <= j < full.len() implies is_digit(#[trigger] full[j]) by {
                            assert(full[j] == input@[colon + 1 + j]);
                        }
                        lemma_digits_prefix(full, k + 1 - colon - 1);
                        assert(full.subrange(0, k + 1 - colon - 1) =~= input@.subrange(colon + 1, k + 1));
                    }
                }
                return false;
            }
            value = next;
            k = k + 1;
        }
        assert(host_url_at(input@, colon as int));
        true
    }
}

fn is_host_char_exec(c: char) -> (r: bool)
    ensures
        r == is_host_char(c),
{
    ('a' <= c && c <= 'z') || ('A' <= c && c <= 'Z') || ('0' <= c && c <= '9') || c == '.' || c == '-'
}

fn is_digit_exec(c: char) -> (r: bool)
    ensures
        r == is_digit(c),
{
    '0' <= c && c <= '9'
}

/// The address itself when it is a `host:port` address.
pub fn try_parse_from_str(input: &str) -> (r: Result<String, HostParseError>)
    ensures
        match r {
            Ok(s) => is_host_url(input@) && s@ == input@,
            Err(e) => !is_host_url(input@) && e.input@ == input@,
        },
{
    if IpParser::accepts(input) {
        Ok(String::from_str(input))
    } else {
        Err(HostParseError { input: String::from_str(input) })
    }
}

/// The address itself when it is a `host:port` address.
pub fn try_parse_from_string(input: String) -> (r: Result<String, HostParseError>)
    ensures
        match r {
            Ok(s) => is_host_url(input@) && s@ == input@,
            Err(e) => !is_host_url(input@) && e.input@ == input@,
        },
{
    if IpParser::accepts(input.as_str()) {
        Ok(input)
    } else {
        Err(HostParseError { input })
    }
}

/// A validated `host:port` address.
#[derive(Clone, Debug, PartialEq)]
pub struct HostUrl(pub String);

impl HostUrl {
    /// The endpoint of the request/reply transport at this address.
    pub fn to_tcp_endpoint(&self) -> (r: String)
        ensures
            r@ == "tcp://"@ + self.0@,
    {
        let mut out = String::from_str("tcp://");
        out.append(self.0.as_str());
        out
    }
}

/// Validates a command-line address.
pub fn try_parse_host_url(input: &String) -> (r: Result<HostUrl, HostParseError>)
    ensures
        match r {
            Ok(h) => is_host_url(input@) && h.0@ == input@,
            Err(e) => !is_host_url(input@) && e.input@ == input@,
        },
{
    match try_parse_from_str(input.as_str()) {
        Ok(s) => Ok(HostUrl(s)),
        Err(e) => Err(e),
    }
}

} // verus!
