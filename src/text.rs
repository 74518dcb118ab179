use vstd::prelude::*;

verus! {

/// `c` is a white-space character in the sense of `char::is_whitespace`
/// (the Unicode `White_Space` property).
pub open spec fn is_space(c: char) -> bool {
    c == '\t' || c == '\n' || c == '\u{0B}' || c == '\u{0C}' || c == '\r' || c == ' '
        || c == '\u{85}' || c == '\u{A0}' || c == '\u{1680}' || ('\u{2000}' <= c
        && c <= '\u{200A}') || c == '\u{2028}' || c == '\u{2029}' || c == '\u{202F}'
        || c == '\u{205F}' || c == '\u{3000}'
}

/// `p` occurs in `s` at position `i`.
pub open spec fn occurs_at(s: Seq<char>, p: Seq<char>, i: int) -> bool {
    0 <= i && i + p.len() <= s.len() && s.subrange(i, i + p.len()) == p
}

/// `p` occurs somewhere in `s`.
pub open spec fn has_substring(s: Seq<char>, p: Seq<char>) -> bool {
    exists|i: int| occurs_at(s, p, i)
}

/// `s` with every leading copy of `p` removed, as `str::trim_start_matches` does.
pub open spec fn strip_leading(s: Seq<char>, p: Seq<char>) -> Seq<char>
    decreases s.len(),
{
    if p.len() > 0 && occurs_at(s, p, 0) {
        strip_leading(s.subrange(p.len() as int, s.len() as int), p)
    } else {
        s
    }
}

/// `s` without its leading white space.
pub open spec fn trim_start(s: Seq<char>) -> Seq<char>
    decreases s.len(),
{
    if s.len() > 0 && is_space(s[0]) {
        trim_start(s.drop_first())
    } else {
        s
    }
}

/// `s` without its trailing white space.
pub open spec fn trim_end(s: Seq<char>) -> Seq<char>
    decreases s.len(),
{
    if s.len() > 0 && is_space(s.last()) {
        trim_end(s.drop_last())
    } else {
        s
    }
}

/// `s` without white space at either end, as `str::trim` gives it.
pub open spec fn trim(s: Seq<char>) -> Seq<char> {
    trim_end(trim_start(s))
}

/// `s` with its first run of white space replaced by one `sep`: the host
/// and the port joined by the separator, whatever follows kept as it is.
pub open spec fn join_first_gap(s: Seq<char>, sep: char) -> Seq<char>
    decreases s.len(),
{
    if s.len() == 0 {
        s
    } else if is_space(s[0]) {
        seq![sep] + trim_start(s)
    } else {
        seq![s[0]] + join_first_gap(s.drop_first(), sep)
    }
}

/// Whether `c` is white space, as `char::is_whitespace` decides.
pub fn is_space_char(c: char) -> (r: bool)
    ensures
        r == is_space(c),
{
    c == '\t' || c == '\n' || c == '\u{0B}' || c == '\u{0C}' || c == '\r' || c == ' '
        || c == '\u{85}' || c == '\u{A0}' || c == '\u{1680}' || ('\u{2000}' <= c
        && c <= '\u{200A}') || c == '\u{2028}' || c == '\u{2029}' || c == '\u{202F}'
        || c == '\u{205F}' || c == '\u{3000}'
}

/// The characters of `s`, in order.
pub fn chars_of(s: &str) -> (v: Vec<char>)
    ensures
        v@ == s@,
{
    let mut v: Vec<char> = Vec::new();
    for c in it: s.chars()
        invariant
            it.seq() == s@,
            v@ == it.seq().take(it.index() as int),
    {
        v.push(c);
        proof {
            assert(v@ =~= it.seq().take(it.index() as int + 1));
        }
    }
    proof {
        assert(v@ =~= s@);
    }
    v
}

/// Relies on `String::from_iter` over `char`s: the string holds exactly the
/// given characters, in order.
#[verifier::external_body]
pub(crate) fn string_of_chars(v: &[char]) -> (r: String)
    ensures
        r@ == v@,
{
    v.iter().collect()
}

/// Whether `p` occurs in `s` at position `i`.
fn occurs_at_exec(s: &[char], p: &[char], i: usize) -> (r: bool)
    ensures
        r == occurs_at(s@, p@, i as int),
{
    if i > s.len() || p.len() > s.len() - i {
        return false;
    }
    let mut j: usize = 0;
    while j < p.len()
        invariant
            i + p.len() <= s.len(),
            j <= p.len(),
            forall|k: int| 0 <= k < j ==> s@[i + k] == p@[k],
        decreases p.len() - j,
    {
        if s[i + j] != p[j] {
            proof {
                assert(s@.subrange(i as int, i + p.len())[j as int] != p@[j as int]);
            }
            return false;
        }
        j = j + 1;
    }
    proof {
        assert(s@.subrange(i as int, i + p.len()) =~= p@);
    }
    true
}

/// Whether `p` occurs anywhere in `s`.
pub fn contains(s: &[char], p: &[char]) -> (r: bool)
    ensures
        r == has_substring(s@, p@),
{
    if p.len() > s.len() {
        return false;
    }
    if p.len() == 0 {
        proof {
            assert(s@.subrange(0, 0) =~= p@);
            assert(occurs_at(s@, p@, 0));
        }
        return true;
    }
    let mut i: usize = 0;
    while i <= s.len() - p.len()
        invariant
            0 < p.len() <= s.len(),
            forall|k: int| 0 <= k < i ==> !occurs_at(s@, p@, k),
        decreases s.len() - p.len() + 1 - i,
    {
        if occurs_at_exec(s, p, i) {
            return true;
        }
        i = i + 1;
    }
    false
}

/// The position in `s` after every copy of `p` that leads `s[from..]`.
fn strip_leading_exec(s: &[char], p: &[char], from: usize) -> (r: usize)
    requires
        from <= s.len(),
    ensures
        from <= r <= s.len(),
        s@.subrange(r as int, s.len() as int) == strip_leading(
            s@.subrange(from as int, s.len() as int),
            p@,
        ),
{
    let mut pos: usize = from;
    if p.len() == 0 {
        return from;
    }
    while occurs_at_exec(s, p, pos)
        invariant
            p.len() > 0,
            from <= pos <= s.len(),
            strip_leading(s@.subrange(from as int, s.len() as int), p@) == strip_leading(
                s@.subrange(pos as int, s.len() as int),
                p@,
            ),
        decreases s.len() - pos,
    {
        let ghost rest = s@.subrange(pos as int, s.len() as int);
        proof {
            assert(rest.subrange(0, p.len() as int) =~= s@.subrange(pos as int, pos + p.len()));
            assert(rest.subrange(p.len() as int, rest.len() as int) =~= s@.subrange(
                pos + p.len(),
                s.len() as int,
            ));
        }
        pos = pos + p.len();
    }
    proof {
        let rest = s@.subrange(pos as int, s.len() as int);
        if occurs_at(rest, p@, 0) {
            assert(rest.subrange(0, p.len() as int) =~= s@.subrange(pos as int, pos + p.len()));
        }
    }
    pos
}

/// The position in `s` after the white space that leads `s[from..]`.
fn skip_space(s: &[char], from: usize) -> (r: usize)
    requires
        from <= s.len(),
    ensures
        from <= r <= s.len(),
        s@.subrange(r as int, s.len() as int) == trim_start(s@.subrange(from as int, s.len() as int)),
{
    let mut a: usize = from;
    while a < s.len() && is_space_char(s[a])
        invariant
            from <= a <= s.len(),
            trim_start(s@.subrange(from as int, s.len() as int)) == trim_start(
                s@.subrange(a as int, s.len() as int),
            ),
        decreases s.len() - a,
    {
        proof {
            assert(s@.subrange(a as int, s.len() as int).drop_first() =~= s@.subrange(
                a + 1,
                s.len() as int,
            ));
        }
        a = a + 1;
    }
    proof {
        assert(trim_start(s@.subrange(a as int, s.len() as int)) == s@.subrange(
            a as int,
            s.len() as int,
        ));
    }
    a
}

/// The bounds of `s[from..]` without white space at either end.
fn trim_bounds(s: &[char], from: usize) -> (r: (usize, usize))
    requires
        from <= s.len(),
    ensures
        from <= r.0 <= r.1 <= s.len(),
        s@.subrange(r.0 as int, r.1 as int) == trim(s@.subrange(from as int, s.len() as int)),
{
    let a = skip_space(s, from);
    let mut b: usize = s.len();
    while b > a && is_space_char(s[b - 1])
        invariant
            from <= a <= b <= s.len(),
            trim(s@.subrange(from as int, s.len() as int)) == trim_end(
                s@.subrange(a as int, b as int),
            ),
        decreases b - a,
    {
        proof {
            assert(s@.subrange(a as int, b as int).drop_last() =~= s@.subrange(
                a as int,
                b - 1,
            ));
        }
        b = b - 1;
    }
    (a, b)
}

/// `s[a..b]` with its first run of white space replaced by `sep`.
fn join_first_gap_exec(s: &[char], a: usize, b: usize, sep: char) -> (r: Vec<char>)
    requires
        a <= b <= s.len(),
    ensures
        r@ == join_first_gap(s@.subrange(a as int, b as int), sep),
{
    let mut out: Vec<char> = Vec::new();
    let mut i: usize = a;
    while i < b
        invariant
            a <= i <= b <= s.len(),
            out@ == s@.subrange(a as int, i as int),
            join_first_gap(s@.subrange(a as int, b as int), sep) == s@.subrange(
                a as int,
                i as int,
            ) + join_first_gap(s@.subrange(i as int, b as int), sep),
        decreases b - i,
    {
        let ghost rest = s@.subrange(i as int, b as int);
        proof {
            assert(rest.drop_first() =~= s@.subrange(i + 1, b as int));
        }
        if is_space_char(s[i]) {
            out.push(sep);
            let mut j: usize = i;
            while j < b && is_space_char(s[j])
                invariant
                    i <= j <= b <= s.len(),
                    trim_start(rest) == trim_start(s@.subrange(j as int, b as int)),
                decreases b - j,
            {
                proof {
                    assert(s@.subrange(j as int, b as int).drop_first() =~= s@.subrange(
                        j + 1,
                        b as int,
                    ));
                }
                j = j + 1;
            }
            proof {
                assert(trim_start(s@.subrange(j as int, b as int)) == s@.subrange(j as int, b as int));
            }
            let start = j;
            while j < b
                invariant
                    i <= start <= j <= b <= s.len(),
                    out@ == s@.subrange(a as int, i as int) + seq![sep] + s@.subrange(
                        start as int,
                        j as int,
                    ),
                decreases b - j,
            {
                out.push(s[j]);
                proof {
                    assert(out@ =~= s@.subrange(a as int, i as int) + seq![sep] + s@.subrange(
                        start as int,
                        j + 1,
                    ));
                }
                j = j + 1;
            }
            proof {
                assert(out@ =~= s@.subrange(a as int, i as int) + (seq![sep] + trim_start(rest)));
            }
            return out;
        }
        out.push(s[i]);
        proof {
            assert(out@ =~= s@.subrange(a as int, i + 1));
            assert(s@.subrange(a as int, i as int) + (seq![s@[i as int]] + join_first_gap(
                rest.drop_first(),
                sep,
            )) =~= s@.subrange(a as int, i + 1) + join_first_gap(rest.drop_first(), sep));
        }
        i = i + 1;
    }
    proof {
        assert(s@.subrange(i as int, b as int) =~= Seq::<char>::empty());
        assert(s@.subrange(a as int, i as int) + Seq::<char>::empty() =~= s@.subrange(
            a as int,
            i as int,
        ));
    }
    out
}

/// The argument of a directive line: what follows the keyword, after the
/// line's leading white space and every leading copy of `keyword`, trimmed.
pub fn directive_argument(s: &[char], keyword: &[char]) -> (r: (usize, usize))
    ensures
        r.0 <= r.1 <= s.len(),
        s@.subrange(r.0 as int, r.1 as int) == trim(strip_leading(trim_start(s@), keyword@)),
{
    proof {
        assert(s@.subrange(0, s.len() as int) =~= s@);
    }
    let start = skip_space(s, 0);
    let from = strip_leading_exec(s, keyword, start);
    trim_bounds(s, from)
}

/// The argument of a directive line, with its first run of white space
/// replaced by `sep`.
pub fn joined_argument(s: &[char], keyword: &[char], sep: char) -> (r: Vec<char>)
    ensures
        r@ == join_first_gap(trim(strip_leading(trim_start(s@), keyword@)), sep),
{
    let (a, b) = directive_argument(s, keyword);
    join_first_gap_exec(s, a, b, sep)
}

} // verus!
