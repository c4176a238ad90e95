use vstd::prelude::*;
use vstd::std_specs::iter::IteratorSpec;

verus! {

/// Whether two string slices hold the same characters.
pub fn str_eq(a: &str, b: &str) -> (r: bool)
    ensures
        r == (a@ == b@),
{
    let mut left = a.chars();
    let mut right = b.chars();
    let ghost mut done: Seq<char> = Seq::empty();
    proof {
        vstd::string::axiom_spec_iter(a);
        vstd::string::axiom_spec_iter(b);
    }
    assert(done + left.remaining() =~= a@);
    assert(done + right.remaining() =~= b@);
    loop
        invariant
            done + left.remaining() == a@,
            done + right.remaining() == b@,
            left.obeys_prophetic_iter_laws(),
            right.obeys_prophetic_iter_laws(),
            left.decrease() is Some,
        decreases left.decrease()->0,
    {
        let ghost left_before = left;
        let ghost right_before = right;
        let x = left.next();
        let y = right.next();
        proof {
            vstd::string::next_postcondition(&left_before, &left, x);
            vstd::string::next_postcondition(&right_before, &right, y);
        }
        match (x, y) {
            (Some(c), Some(d)) => {
                if c != d {
                    assert(a@[done.len() as int] == c);
                    assert(b@[done.len() as int] == d);
                    return false;
                }
                proof {
                    done = done.push(c);
                }
                assert(done + left.remaining() =~= a@);
                assert(done + right.remaining() =~= b@);
            },
            (None, None) => {
                assert(a@ =~= done);
                assert(b@ =~= done);
                return true;
            },
            _ => {
                assert(a@.len() != b@.len());
                return false;
            },
        }
    }
}

/// The characters of a string, in order.
pub fn to_chars(text: &str) -> (r: Vec<char>)
    ensures
        r@ == text@,
{
    let mut out: Vec<char> = Vec::new();
    let mut rest = text.chars();
    proof {
        vstd::string::axiom_spec_iter(text);
    }
    assert(out@ + rest.remaining() =~= text@);
    loop
        invariant
            out@ + rest.remaining() == text@,
            rest.obeys_prophetic_iter_laws(),
            rest.decrease() is Some,
        decreases rest.decrease()->0,
    {
        let ghost before = rest;
        let next = rest.next();
        proof {
            vstd::string::next_postcondition(&before, &rest, next);
        }
        match next {
            Some(c) => {
                out.push(c);
                assert(out@ + rest.remaining() =~= text@);
            },
            None => {
                assert(out@ + Seq::<char>::empty() =~= out@);
                return out;
            },
        }
    }
}

} // verus!
