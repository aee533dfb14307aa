use vstd::prelude::*;
use vstd::string::*;
use crate::scope::{dec_rep, str_eq, ScopeModel};

verus! {

// The generated target text is modeled as a sequence of lines, each an
// indentation depth paired with its content.  Rendering joins them with tab
// indentation and a trailing newline, exactly as the output buffer does.

/// The model of the output buffer: (depth, content) pairs in emission order.
pub type Lines = Seq<(nat, Seq<char>)>;

/// `d` tab characters.
pub open spec fn tabs(d: nat) -> Seq<char> {
    Seq::new(d, |i: int| '\t')
}

/// One rendered line: indentation, content, newline.
pub open spec fn render_line(l: (nat, Seq<char>)) -> Seq<char> {
    tabs(l.0) + l.1 + "\n"@
}

/// The rendered text of a whole line sequence.
pub open spec fn render_lines(ls: Lines) -> Seq<char>
    decreases ls.len(),
{
    if ls.len() == 0 {
        Seq::empty()
    } else {
        render_lines(ls.drop_last()) + render_line(ls.last())
    }
}

pub proof fn lemma_render_lines_concat(a: Lines, b: Lines)
    ensures
        render_lines(a + b) == render_lines(a) + render_lines(b),
    decreases b.len(),
{
    if b.len() == 0 {
        assert(a + b =~= a);
        assert(render_lines(a) + render_lines(b) =~= render_lines(a));
    } else {
        assert((a + b).drop_last() =~= a + b.drop_last());
        assert((a + b).last() == b.last());
        lemma_render_lines_concat(a, b.drop_last());
        assert(render_lines(a) + render_lines(b.drop_last()) + render_line(b.last())
            =~= render_lines(a) + (render_lines(b.drop_last()) + render_line(b.last())));
    }
}

pub proof fn lemma_render_lines_push(a: Lines, l: (nat, Seq<char>))
    ensures
        render_lines(a.push(l)) == render_lines(a) + render_line(l),
{
    assert(a.push(l).drop_last() =~= a);
    assert(a.push(l).last() == l);
}

/// Rendering a one-longer prefix appends the rendering of one more line.
pub proof fn lemma_render_take_step(s: Lines, i: int)
    requires
        0 <= i < s.len(),
    ensures
        render_lines(s.take(i + 1)) == render_lines(s.take(i)) + render_line(s[i]),
{
    assert(s.take(i + 1).drop_last() =~= s.take(i));
    assert(s.take(i + 1).last() == s[i]);
}

pub proof fn lemma_render_singleton(l: (nat, Seq<char>))
    ensures
        render_lines(seq![l]) == render_line(l),
{
    assert(seq![l].len() == 1);
    assert(seq![l].last() == l);
    assert(seq![l].drop_last() =~= Seq::<(nat, Seq<char>)>::empty());
    assert(render_lines(Seq::<(nat, Seq<char>)>::empty()) == Seq::<char>::empty());
    assert(Seq::<char>::empty() + render_line(l) =~= render_line(l));
}

/// The decimal text of a possibly negative integer.
pub open spec fn int_text(n: int) -> Seq<char> {
    if n < 0 {
        seq!['-'] + dec_rep((-n) as nat)
    } else {
        dec_rep(n as nat)
    }
}

/// Relies on `i32`'s `Display` implementation, which formats the value as
/// its decimal digits with a leading minus sign when negative.
#[verifier::external_body]
pub fn i32_to_string(n: i32) -> (r: String)
    ensures
        r@ == int_text(n as int),
{
    n.to_string()
}

/// The arity table: one entry per defined function, target name paired with
/// its parameter count, in definition order.
pub type Arities = Seq<(Seq<char>, nat)>;

/// Arity lookup resolves to the most recently defined entry.
pub open spec fn ar_lookup(a: Arities, t: Seq<char>) -> Option<nat>
    decreases a.len(),
{
    if a.len() == 0 {
        None
    } else if a.last().0 == t {
        Some(a.last().1)
    } else {
        ar_lookup(a.drop_last(), t)
    }
}

/// The model of an executable arity table.
pub open spec fn ar_model(v: Seq<(String, usize)>) -> Arities {
    v.map_values(|p: (String, usize)| (p.0@, p.1 as nat))
}

/// Looks a target name up in an arity table (most recent entry wins).
pub fn arity_of(v: &Vec<(String, usize)>, t: &str) -> (r: Option<usize>)
    ensures
        (r is Some) == (ar_lookup(ar_model(v@), t@) is Some),
        r matches Some(k) ==> ar_lookup(ar_model(v@), t@) == Some(k as nat),
{
    let ghost m = ar_model(v@);
    let mut i: usize = v.len();
    proof {
        assert(m.subrange(0, i as int) =~= m);
    }
    while i > 0
        invariant
            0 <= i <= v.len(),
            m == ar_model(v@),
            m.len() == v.len(),
            ar_lookup(m, t@) == ar_lookup(m.subrange(0, i as int), t@),
        decreases i,
    {
        let ghost part = m.subrange(0, i as int);
        if str_eq(v[i - 1].0.as_str(), t) {
            proof {
                assert(part.last() == m[i - 1]);
                assert(part.last().0 == t@);
            }
            return Some(v[i - 1].1);
        }
        proof {
            assert(part.last() == m[i - 1]);
            assert(part.last().0 != t@);
            assert(part.drop_last() =~= m.subrange(0, i - 1));
        }
        i -= 1;
    }
    proof {
        assert(m.subrange(0, 0) =~= Seq::<(Seq<char>, nat)>::empty());
    }
    None
}

/// What one lowering step leaves behind: the emitted lines, and the scope
/// and arity table it hands on.
#[verifier::ext_equal]
pub struct LowerOut {
    pub lines: Lines,
    pub scope: ScopeModel,
    pub ars: Arities,
}

/// Prepends already-emitted lines to the lines of a lowering result.
pub open spec fn cons_lines(pre: Lines, r: Result<LowerOut, crate::error::LowerErr>) -> Result<
    LowerOut,
    crate::error::LowerErr,
> {
    match r {
        Ok(eff) => Ok(LowerOut { lines: pre + eff.lines, scope: eff.scope, ars: eff.ars }),
        Err(e) => Err(e),
    }
}

pub proof fn lemma_cons_lines_empty(r: Result<LowerOut, crate::error::LowerErr>)
    ensures
        cons_lines(Seq::empty(), r) == r,
{
    match r {
        Ok(eff) => {
            assert(Seq::<(nat, Seq<char>)>::empty() + eff.lines =~= eff.lines);
            assert(cons_lines(Seq::empty(), r)->Ok_0 =~= eff);
        },
        Err(_) => {},
    }
}

pub proof fn lemma_cons_lines_assoc(
    a: Lines,
    b: Lines,
    r: Result<LowerOut, crate::error::LowerErr>,
)
    ensures
        cons_lines(a, cons_lines(b, r)) == cons_lines(a + b, r),
{
    match r {
        Ok(eff) => {
            assert(a + (b + eff.lines) =~= (a + b) + eff.lines);
            assert(cons_lines(a, cons_lines(b, r))->Ok_0 =~= cons_lines(a + b, r)->Ok_0);
        },
        Err(_) => {},
    }
}

} // verus!
