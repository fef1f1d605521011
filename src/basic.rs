//! Helpers of the plain file server: a port number read from text and the
//! mapping of a request path to a file.
use crate::http::{ends_with_slash, has_parent_step, starts_with_slash, contains_parent_step};
use crate::text::{decimal, decimal_string};
use vstd::prelude::*;

pub use crate::http::get_response;

verus! {

/// Whether every character of `s` is an ASCII digit.
pub open spec fn all_digits(s: Seq<char>) -> bool {
    forall|i: int| 0 <= i < s.len() ==> '0' <= #[trigger] s[i] <= '9'
}

/// The value of a digit character.
pub open spec fn digit_value(c: char) -> nat {
    (c as u32 - '0' as u32) as nat
}

/// The number that a string of decimal digits denotes.
pub open spec fn digits_value(s: Seq<char>) -> nat
    decreases s.len(),
{
    if s.len() == 0 {
        0
    } else {
        digits_value(s.drop_last()) * 10 + digit_value(s.last())
    }
}

/// The digits of a numeral, after an optional leading `+`.
pub open spec fn unsigned_digits(s: Seq<char>) -> Seq<char> {
    if s.len() > 0 && s[0] == '+' {
        s.drop_first()
    } else {
        s
    }
}

/// The port number that `s` denotes: an optional `+`, then one or more
/// decimal digits whose value fits in 16 bits.
pub open spec fn port_number(s: Seq<char>) -> Option<u16> {
    let d = unsigned_digits(s);
    if d.len() > 0 && all_digits(d) && digits_value(d) <= u16::MAX {
        Some(digits_value(d) as u16)
    } else {
        None
    }
}

proof fn lemma_prefix_value_bounded(s: Seq<char>, k: int)
    requires
        0 <= k <= s.len(),
        all_digits(s),
    ensures
        digits_value(s.take(k)) <= digits_value(s),
    decreases s.len(),
{
    if k < s.len() {
        let t = s.drop_last();
        assert(t.take(k) =~= s.take(k));
        lemma_prefix_value_bounded(t, k);
        assert(digits_value(t) <= digits_value(t) * 10) by (nonlinear_arith);
    } else {
        assert(s.take(k) =~= s);
    }
}

/// A listening port.
pub struct Port {
    pub port: u16,
}

impl Port {
    /// Reads a port number from text; `None` unless the whole text is a
    /// decimal number from 0 to 65535, optionally preceded by `+`.
    pub fn new(port: String) -> (r: Option<Port>)
        ensures
            r is Some <==> port_number(port@) is Some,
            r is Some ==> r->Some_0.port == port_number(port@)->Some_0,
    {
        let s = port.as_str();
        let n = s.unicode_len();
        let mut start: usize = 0;
        if n > 0 && s.get_char(0) == '+' {
            start = 1;
        }
        let ghost d = unsigned_digits(s@);
        assert(d =~= s@.skip(start as int));
        if start == n {
            return None;
        }
        let mut value: u32 = 0;
        let mut i: usize = start;
        while i < n
            invariant
                n == s@.len(),
                start <= i <= n,
                d == s@.skip(start as int),
                d == unsigned_digits(port@),
                all_digits(d.take(i - start)),
                value as nat == digits_value(d.take(i - start)),
                value <= u16::MAX,
            decreases n - i,
        {
            let c = s.get_char(i);
            assert(d[i - start] == s@[i as int]);
            assert(d.take(i + 1 - start).drop_last() =~= d.take(i - start));
            assert(d.take(i + 1 - start).last() == c);
            if c < '0' || c > '9' {
                assert(d[i - start] == c);
                return None;
            }
            let next = value * 10 + (c as u32 - '0' as u32);
            assert(next as nat == digits_value(d.take(i + 1 - start)));
            if next > 65535 {
                proof {
                    if all_digits(d) {
                        lemma_prefix_value_bounded(d, i + 1 - start);
                    }
                }
                return None;
            }
            value = next;
            assert forall|j: int| 0 <= j < i + 1 - start implies '0' <= #[trigger] d.take(
                i + 1 - start,
            )[j] <= '9' by {
                if j < i - start {
                    assert(d.take(i + 1 - start)[j] == d.take(i - start)[j]);
                }
            }
            i = i + 1;
        }
        assert(d.take(n - start) =~= d);
        Some(Port { port: value as u16 })
    }

    /// The port number as decimal text.
    pub fn as_str(&self) -> (r: String)
        ensures
            r@ == decimal(self.port as nat),
    {
        decimal_string(self.port as usize)
    }
}

/// A request path mapped to a file of the plain server: `index.html` is
/// added to a directory path, and the leading `/` removed.
pub open spec fn basic_local_path(file: Seq<char>) -> Seq<char> {
    let with_index = if ends_with_slash(file) {
        file + "index.html"@
    } else {
        file
    };
    if starts_with_slash(with_index) {
        with_index.drop_first()
    } else {
        with_index
    }
}

/// The file that a request path names on the plain server; a path that
/// climbs with `../` names nothing (the empty path).
pub open spec fn basic_resolved_path(file: Seq<char>) -> Seq<char> {
    if has_parent_step(file) {
        Seq::empty()
    } else {
        basic_local_path(file)
    }
}

/// Maps a request path to the file to serve: `index.html` is added to a
/// path ending in `/`, the leading `/` is removed, and a path holding `../`
/// gives the empty path.
pub fn parse_file(file: String) -> (r: String)
    ensures
        r@ == basic_resolved_path(file@),
{
    if contains_parent_step(file.as_str()) {
        return String::new();
    }
    let mut path = file;
    let n = path.as_str().unicode_len();
    if n > 0 && path.as_str().get_char(n - 1) == '/' {
        path.append("index.html");
    }
    let p = path.as_str();
    let m = p.unicode_len();
    if m > 0 && p.get_char(0) == '/' {
        let rest = p.substring_char(1, m);
        assert(rest@ =~= path@.drop_first());
        String::from_str(rest)
    } else {
        path
    }
}

} // verus!
