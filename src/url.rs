use vstd::prelude::*;
use vstd::string::{StrSliceExecFns, StringExecFns};

verus! {

/// Value of a run of decimal digits.
pub open spec fn digits_value(s: Seq<char>) -> int
    decreases s.len(),
{
    if s.len() == 0 {
        0
    } else {
        digits_value(s.drop_last()) * 10 + (s.last() as int - '0' as int)
    }
}

pub open spec fn all_digits(s: Seq<char>) -> bool {
    forall|i: int| 0 <= i < s.len() ==> '0' <= #[trigger] s[i] && s[i] <= '9'
}

/// What `u16::from_str` accepts: an optional `+`, then one or more decimal
/// digits whose value fits in 16 bits.
pub open spec fn parsed_u16(s: Seq<char>) -> Option<u16> {
    let d = if s.len() > 0 && s[0] == '+' {
        s.skip(1)
    } else {
        s
    };
    if d.len() > 0 && all_digits(d) && digits_value(d) <= 0xFFFF {
        Some(digits_value(d) as u16)
    } else {
        None
    }
}

/// Relies on `str::parse::<u16>` (`u16::from_str`): an optional `+` and
/// decimal digits, the value in range; anything else is an error.
#[verifier::external_body]
fn parse_u16(s: &str) -> (r: Option<u16>)
    ensures
        r == parsed_u16(s@),
{
    s.parse::<u16>().ok()
}

/// The first position at or after `from` that holds `c`, or the length.
pub open spec fn find_from(s: Seq<char>, c: char, from: int) -> int
    decreases s.len() - from,
{
    if from >= s.len() || from < 0 {
        s.len() as int
    } else if s[from] == c {
        from
    } else {
        find_from(s, c, from + 1)
    }
}

pub open spec fn scheme() -> Seq<char> {
    seq!['h', 't', 't', 'p', ':', '/', '/']
}

/// Host, port and path of an `http://` URL: the server part runs to the
/// first `/` after the scheme (the path, `/` when there is none); a `:` in
/// it starts the port, which is 80 when absent or not a number.
pub open spec fn url_parts(s: Seq<char>) -> Option<(Seq<char>, u16, Seq<char>)> {
    if s.len() < 7 || s.take(7) != scheme() {
        None
    } else {
        let slash = find_from(s, '/', 7);
        let server = s.subrange(7, slash);
        let path = if slash < s.len() {
            s.skip(slash)
        } else {
            seq!['/']
        };
        let colon = find_from(server, ':', 0);
        let port = if colon < server.len() {
            match parsed_u16(server.skip(colon + 1)) {
                Some(p) => p,
                None => 80,
            }
        } else {
            80
        };
        Some((server.take(colon), port, path))
    }
}

/// Where an HTTP request goes.
#[derive(Debug)]
pub struct URL {
    pub host: String,
    pub port: u16,
    pub path: String,
}

/// The first position in `from..to` that holds `c`, or `to`.
fn find_char(s: &str, c: char, from: usize, to: usize) -> (r: usize)
    requires
        from <= to == s@.len(),
    ensures
        r as int == find_from(s@, c, from as int),
{
    let mut i = from;
    while i < to
        invariant
            from <= i <= to == s@.len(),
            find_from(s@, c, from as int) == find_from(s@, c, i as int),
        decreases to - i,
    {
        if s.get_char(i) == c {
            return i;
        }
        i = i + 1;
    }
    i
}

proof fn lemma_find_bound(s: Seq<char>, c: char, from: int)
    requires
        0 <= from <= s.len(),
    ensures
        from <= find_from(s, c, from) <= s.len(),
        find_from(s, c, from) < s.len() ==> s[find_from(s, c, from)] == c,
    decreases s.len() - from,
{
    if from < s.len() && s[from] != c {
        lemma_find_bound(s, c, from + 1);
    }
}

impl URL {
    /// Splits an `http://` URL into host, port and path; `None` for any
    /// other scheme.
    pub fn parse(url: &str) -> (r: Option<URL>)
        ensures
            match (r, url_parts(url@)) {
                (Some(u), Some(p)) => u.host@ == p.0 && u.port == p.1 && u.path@ == p.2,
                (None, None) => true,
                _ => false,
            },
    {
        let n = url.unicode_len();
        if n < 7 {
            return None;
        }
        let mut i: usize = 0;
        while i < 7
            invariant
                i <= 7 <= n == url@.len(),
                forall|j: int| 0 <= j < i ==> url@[j] == scheme()[j],
            decreases 7 - i,
        {
            let c = url.get_char(i);
            let expected = if i == 0 {
                'h'
            } else if i == 1 || i == 2 {
                't'
            } else if i == 3 {
                'p'
            } else if i == 4 {
                ':'
            } else {
                '/'
            };
            if c != expected {
                assert(url@.take(7)[i as int] != scheme()[i as int]);
                return None;
            }
            i = i + 1;
        }
        assert(url@.take(7) =~= scheme());
        let slash = find_char(url, '/', 7, n);
        proof {
            lemma_find_bound(url@, '/', 7);
        }
        let server = url.substring_char(7, slash);
        let path = if slash < n {
            String::from_str(url.substring_char(slash, n))
        } else {
            String::from_str("/")
        };
        proof {
            if slash < n {
                assert(url@.subrange(slash as int, n as int) =~= url@.skip(slash as int));
            } else {
                reveal_strlit("/");
                assert("/"@ =~= seq!['/']);
            }
        }
        let m = server.unicode_len();
        let colon = find_char(server, ':', 0, m);
        proof {
            lemma_find_bound(server@, ':', 0);
        }
        let host = String::from_str(server.substring_char(0, colon));
        let mut port: u16 = 80;
        if colon < m {
            let text = server.substring_char(colon + 1, m);
            assert(text@ =~= server@.skip(colon + 1));
            match parse_u16(text) {
                Some(p) => {
                    port = p;
                },
                None => {},
            }
        }
        assert(host@ =~= server@.take(colon as int));
        Some(URL { host, port, path })
    }
}

} // verus!
