//! What a radix tree reads in a route: which braces open a parameter.
//!
//! A tree has one letter for each ordinary parameter of a route, and there are not enough
//! for 26. Whoever gives it a route counts first.

use vstd::prelude::*;
use vstd::string::*;
use vstd::utf8::encode_utf8;

verus! {

/// A byte of a route, and whether it is a brace that was written twice to stand for
/// itself.
pub type Mark = (u8, bool);

/// The bytes of a route from a place on, each pair of equal braces read as one.
pub open spec fn marks_from(b: Seq<u8>, i: int) -> Seq<Mark>
    decreases b.len() - i,
{
    if i < 0 || i >= b.len() {
        Seq::empty()
    } else if (b[i] == 123 || b[i] == 125) && i + 1 < b.len() && b[i + 1] == b[i] {
        seq![(b[i], true)] + marks_from(b, i + 2)
    } else {
        seq![(b[i], false)] + marks_from(b, i + 1)
    }
}

/// The first brace from a place on that does not stand for itself, or the end.
pub open spec fn next_brace(m: Seq<Mark>, i: int) -> int
    decreases m.len() - i,
{
    if i < 0 || i >= m.len() {
        m.len() as int
    } else if (m[i].0 == 123 || m[i].0 == 125) && !m[i].1 {
        i
    } else {
        next_brace(m, i + 1)
    }
}

/// Where a name ends: the first closing brace from a place on that does not stand for
/// itself. A name holds neither a star nor a slash.
pub open spec fn name_end(m: Seq<Mark>, i: int) -> Option<int>
    decreases m.len() - i,
{
    if i < 1 || i >= m.len() {
        None
    } else if m[i].0 == 125 && !m[i].1 {
        if m[i - 1].0 == 42 {
            None
        } else {
            Some(i)
        }
    } else if m[i].0 == 42 || m[i].0 == 47 {
        None
    } else {
        name_end(m, i + 1)
    }
}

/// The next parameter from a place on, from its opening brace to behind the closing one;
/// nothing where there is none or the braces do not match.
pub open spec fn next_param(m: Seq<Mark>, at: int) -> Option<(int, int)> {
    let s = next_brace(m, at);
    if s >= m.len() || m[s].0 == 125 || (s + 1 < m.len() && m[s + 1].0 == 125) {
        None
    } else {
        match name_end(m, s + 2) {
            Some(e) => Some((s, e + 1)),
            None => None,
        }
    }
}

/// Whether a parameter takes one segment, rather than all that is left of a path.
pub open spec fn is_ordinary(m: Seq<Mark>, s: int) -> bool {
    m[s + 1].0 != 42
}

/// What is left to read once an ordinary parameter has given its name away for a letter.
/// What follows moves up by the letters saved, but a mark right behind the parameter stays
/// where it was.
pub open spec fn renamed(m: Seq<Mark>, s: int, e: int) -> Seq<Mark> {
    let saved = e - s - 3;
    if is_ordinary(m, s) && saved > 0 && e < m.len() && m[e].1 {
        let cleared = m.update(e, (m[e].0, false));
        if e + saved < m.len() {
            cleared.update(e + saved, (m[e + saved].0, true))
        } else {
            cleared
        }
    } else {
        m
    }
}

/// How many ordinary parameters are read from a place on, up to where the braces no
/// longer match.
pub open spec fn params_from(m: Seq<Mark>, at: int) -> nat
    decreases m.len() - at,
{
    match next_param(m, at) {
        Some((s, e)) => if at < e <= m.len() {
            let rest = params_from(renamed(m, s, e), e);
            if is_ordinary(m, s) {
                1 + rest
            } else {
                rest
            }
        } else {
            0
        },
        None => 0,
    }
}

/// How many ordinary parameters a tree reads in a route.
pub open spec fn ordinary_params(route: Seq<char>) -> nat {
    params_from(marks_from(encode_utf8(route), 0), 0)
}

/// Whether three bytes in front of a place read like a parameter of one letter.
pub open spec fn looks_named(m: Seq<Mark>, s: int) -> bool {
    s >= 3 && m[s - 3].0 == 123 && m[s - 1].0 == 125
}

/// Whether, from a place on, a brace that stands for itself follows right behind a
/// parameter with a name of one byte, somewhere after an ordinary parameter in front of
/// which stands what looks like another. `seen` tells whether there was such a one before.
pub open spec fn tangled_from(m: Seq<Mark>, at: int, seen: bool) -> bool
    decreases m.len() - at,
{
    match next_param(m, at) {
        Some((s, e)) => if at < e <= m.len() {
            ||| seen && is_ordinary(m, s) && e - s == 3 && e < m.len() && m[e].1
            ||| tangled_from(renamed(m, s, e), e, seen || (is_ordinary(m, s) && looks_named(m, s)))
        } else {
            false
        },
        None => false,
    }
}

/// Whether the braces of a route are such that a tree which holds it may lose count of its
/// names when it words a conflict with one that [`ends_alike`], as in `/{{a}}{qq}/{r}{{x`.
pub open spec fn is_tangled(route: Seq<char>) -> bool {
    tangled_from(marks_from(encode_utf8(route), 0), 0, false)
}

/// Whether, from a place on, a parameter that takes all that is left follows right behind
/// what looks like a parameter of one letter.
pub open spec fn alike_from(m: Seq<Mark>, at: int) -> bool
    decreases m.len() - at,
{
    match next_param(m, at) {
        Some((s, e)) => if at < e <= m.len() {
            (!is_ordinary(m, s) && looks_named(m, s)) || alike_from(renamed(m, s, e), e)
        } else {
            false
        },
        None => false,
    }
}

/// Whether a parameter that takes all that is left follows right behind what looks like a
/// parameter of one letter, as in `/{{a}}{*z}`.
pub open spec fn ends_alike(route: Seq<char>) -> bool {
    alike_from(marks_from(encode_utf8(route), 0), 0)
}

fn read_marks(b: &[u8]) -> (r: Vec<Mark>)
    ensures
        r@ == marks_from(b@, 0),
{
    let mut out: Vec<Mark> = Vec::new();
    let mut i: usize = 0;
    assert(out@ + marks_from(b@, 0) =~= marks_from(b@, 0));
    while i < b.len()
        invariant
            i <= b@.len(),
            out@ + marks_from(b@, i as int) == marks_from(b@, 0),
        decreases b.len() - i,
    {
        let ghost was = out@;
        let ghost at = i as int;
        if (b[i] == 123 || b[i] == 125) && b.len() - i > 1 && b[i + 1] == b[i] {
            out.push((b[i], true));
            i = i + 2;
        } else {
            out.push((b[i], false));
            i = i + 1;
        }
        assert(out@ + marks_from(b@, i as int) =~= was + marks_from(b@, at));
    }
    assert(out@ + marks_from(b@, i as int) =~= out@);
    out
}

fn find_brace(m: &Vec<Mark>, from: usize) -> (r: usize)
    requires
        from <= m@.len(),
    ensures
        r == next_brace(m@, from as int),
        from <= r <= m@.len(),
{
    let mut i: usize = from;
    while i < m.len()
        invariant
            from <= i <= m@.len(),
            next_brace(m@, from as int) == next_brace(m@, i as int),
        decreases m.len() - i,
    {
        if (m[i].0 == 123 || m[i].0 == 125) && !m[i].1 {
            return i;
        }
        i = i + 1;
    }
    i
}

fn find_end(m: &Vec<Mark>, from: usize) -> (r: Option<usize>)
    requires
        1 <= from,
    ensures
        match r {
            Some(e) => name_end(m@, from as int) == Some(e as int) && from <= e < m@.len(),
            None => name_end(m@, from as int) is None,
        },
{
    let mut i: usize = from;
    while i < m.len()
        invariant
            1 <= from <= i,
            i <= m@.len() || i == from,
            name_end(m@, from as int) == name_end(m@, i as int),
        decreases m.len() - i,
    {
        if m[i].0 == 125 && !m[i].1 {
            return if m[i - 1].0 == 42 {
                None
            } else {
                Some(i)
            };
        }
        if m[i].0 == 42 || m[i].0 == 47 {
            return None;
        }
        i = i + 1;
    }
    None
}

fn find_param(m: &Vec<Mark>, at: usize) -> (r: Option<(usize, usize)>)
    requires
        at <= m@.len(),
    ensures
        match r {
            Some(p) => next_param(m@, at as int) == Some((p.0 as int, p.1 as int)) && at <= p.0 && p.0 + 3 <= p.1
                <= m@.len(),
            None => next_param(m@, at as int) is None,
        },
{
    let s: usize = find_brace(m, at);
    if s >= m.len() || m[s].0 == 125 {
        return None;
    }
    if m.len() - s <= 2 {
        return None;
    }
    if m[s + 1].0 == 125 {
        return None;
    }
    match find_end(m, s + 2) {
        Some(e) => Some((s, e + 1)),
        None => None,
    }
}

/// What is to be known of a route before a tree is asked to take it.
#[derive(Debug, Clone, Copy, PartialEq, Eq, Structural)]
pub struct Reading {
    /// How many ordinary parameters it has.
    pub params: usize,
    pub tangled: bool,
    pub alike: bool,
}

/// Reads a route.
pub fn read_route(route: &str) -> (r: Reading)
    ensures
        r.params == ordinary_params(route@),
        r.tangled == is_tangled(route@),
        r.alike == ends_alike(route@),
{
    let mut m = read_marks(route.as_bytes());
    let ghost all = m@;
    let mut at: usize = 0;
    let mut params: usize = 0;
    let mut seen = false;
    let mut tangled = false;
    let mut alike = false;
    loop
        invariant
            at <= m@.len(),
            m@.len() == all.len(),
            params <= at,
            all == marks_from(encode_utf8(route@), 0),
            params_from(all, 0) == params + params_from(m@, at as int),
            tangled_from(all, 0, false) == (tangled || tangled_from(m@, at as int, seen)),
            alike_from(all, 0) == (alike || alike_from(m@, at as int)),
        decreases m.len() - at,
    {
        let ghost was = m@;
        let ghost here = at as int;
        let (s, e) = match find_param(&m, at) {
            Some(p) => p,
            None => {
                return Reading { params, tangled, alike };
            },
        };
        let named = s >= 3 && m[s - 3].0 == 123 && m[s - 1].0 == 125;
        if m[s + 1].0 != 42 {
            params = params + 1;
            if e < m.len() && m[e].1 {
                let saved: usize = e - s - 3;
                if saved == 0 {
                    if seen {
                        tangled = true;
                    }
                } else {
                    let first: u8 = m[e].0;
                    m.set(e, (first, false));
                    if saved < m.len() - e {
                        let later: u8 = m[e + saved].0;
                        m.set(e + saved, (later, true));
                    }
                }
            }
            if named {
                seen = true;
            }
        } else if named {
            alike = true;
        }
        at = e;
        assert(m@ =~= renamed(was, s as int, e as int));
        assert(here < e);
    }
}

} // verus!
