//! Domain-name syntax.
//!
//! A CA is responsible for one DNS domain.  Initialization rejects a
//! syntactically invalid domain name, and bridge scopes are derived from
//! domain names, so the grammar is spelled out here: a domain is a dot
//! separated list of labels, each label is 1 to 63 characters, made of
//! ASCII letters, digits and hyphens, and does not begin or end with a
//! hyphen; the whole name is at most 253 characters.

use vstd::prelude::*;

verus! {

/// An ASCII letter or digit.
pub open spec fn alnum(c: char) -> bool {
    ('a' <= c && c <= 'z') || ('A' <= c && c <= 'Z') || ('0' <= c && c <= '9')
}

/// Checks the labels of `s` from position `i` on, where `llen` characters
/// of the current label lie before position `i`.
pub open spec fn valid_labels_from(s: Seq<char>, i: int, llen: int) -> bool
    decreases s.len() - i when 0 <= i <= s.len()
{
    if i >= s.len() {
        1 <= llen <= 63 && s[i - 1] != '-'
    } else if s[i] == '.' {
        1 <= llen <= 63 && s[i - 1] != '-' && valid_labels_from(s, i + 1, 0)
    } else if alnum(s[i]) || (s[i] == '-' && llen > 0) {
        valid_labels_from(s, i + 1, llen + 1)
    } else {
        false
    }
}

/// Domain-name syntax: at most 253 characters, labels of 1 to 63 letters,
/// digits or hyphens, no label beginning or ending with a hyphen.
pub open spec fn valid_domain(s: Seq<char>) -> bool {
    1 <= s.len() <= 253 && valid_labels_from(s, 0, 0)
}

/// Decides `valid_domain` for a domain name given as a string.
pub fn check_domain(s: &str) -> (r: bool)
    ensures
        r == valid_domain(s@),
{
    let n = s.unicode_len();
    if n < 1 || n > 253 {
        return false;
    }
    let mut i: usize = 0;
    let mut llen: usize = 0;
    loop
        invariant
            0 <= i <= n,
            n == s@.len(),
            1 <= n <= 253,
            llen <= i,
            valid_labels_from(s@, 0, 0) == valid_labels_from(s@, i as int, llen as int),
        decreases n - i,
    {
        if i == n {
            return llen >= 1 && llen <= 63 && s.get_char(i - 1) != '-';
        }
        let c = s.get_char(i);
        if c == '.' {
            if !(llen >= 1 && llen <= 63 && s.get_char(i - 1) != '-') {
                return false;
            }
            llen = 0;
        } else if ('a' <= c && c <= 'z') || ('A' <= c && c <= 'Z') || ('0' <= c && c <= '9')
            || (c == '-' && llen > 0) {
            llen = llen + 1;
        } else {
            return false;
        }
        i = i + 1;
    }
}

/// `s` from position `p` on, with every dot escaped by a backslash.
pub open spec fn escape_dots(s: Seq<char>, p: int) -> Seq<char>
    decreases s.len() - p when 0 <= p <= s.len()
{
    if p >= s.len() {
        Seq::empty()
    } else if s[p] == '.' {
        seq!['\\', '.'] + escape_dots(s, p + 1)
    } else {
        seq![s[p]] + escape_dots(s, p + 1)
    }
}

/// Appends `s` to `out` with every dot escaped.
#[verifier::loop_isolation(false)]
pub fn append_escaped_dots(out: &mut String, s: &str)
    ensures
        final(out)@ == old(out)@ + escape_dots(s@, 0),
{
    let n = s.unicode_len();
    let ghost base = out@;
    for i in 0..n
        invariant
            escape_dots(s@, 0) =~= out@.skip(base.len() as int) + escape_dots(s@, i as int),
            out@.len() >= base.len(),
            out@.take(base.len() as int) =~= base,
    {
        let ghost before = out@;
        let c = s.get_char(i);
        if c == '.' {
            out.append("\\.");
            proof {
                reveal_strlit("\\.");
                assert(out@.skip(base.len() as int) =~= before.skip(base.len() as int)
                    + seq!['\\', '.']);
            }
        } else {
            crate::strings::append_char_of(out, s, i);
            proof {
                assert(out@.skip(base.len() as int) =~= before.skip(base.len() as int)
                    + seq![s@[i as int]]);
            }
        }
        proof {
            assert(escape_dots(s@, i as int) == (if s@[i as int] == '.' {
                seq!['\\', '.']
            } else {
                seq![s@[i as int]]
            }) + escape_dots(s@, i + 1));
            assert(escape_dots(s@, 0) =~= out@.skip(base.len() as int) + escape_dots(
                s@,
                i + 1,
            ));
            assert(out@.take(base.len() as int) =~= base);
        }
    }
    proof {
        assert(escape_dots(s@, n as int) =~= Seq::<char>::empty());
        assert(final(out)@ =~= base + escape_dots(s@, 0));
    }
}

} // verus!
