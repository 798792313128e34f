//! How numbers are written.
use vstd::prelude::*;
use crate::text;

verus! {

/// The number that decimal digits stand for.
pub open spec fn value_of(s: Seq<char>) -> int
    decreases s.len(),
{
    if s.len() == 0 {
        0
    } else {
        10 * value_of(s.drop_last()) + (s.last() as int - '0' as int)
    }
}

/// A number is written with digits alone, without zeros in front, and reads back as itself.
pub proof fn numbers_read_back(n: nat)
    ensures
        value_of(text::decimal_text(n)) == n,
        text::decimal_text(n).len() > 0,
        forall|i: int|
            0 <= i < text::decimal_text(n).len() ==> '0' as int <= (#[trigger] text::decimal_text(
                n,
            )[i]) as int <= '9' as int,
        n > 0 ==> text::decimal_text(n)[0] != '0',
    decreases n,
{
    let s = text::decimal_text(n);
    reveal_with_fuel(value_of, 2);
    if n < 10 {
        assert(s.drop_last().len() == 0);
    } else {
        numbers_read_back(n / 10);
        let t = text::decimal_text(n / 10);
        assert(s == t.push(text::digit_char((n % 10) as int)));
        assert(s.drop_last() == t);
        assert forall|i: int| 0 <= i < s.len() implies '0' as int <= (#[trigger] s[i]) as int
            <= '9' as int by {
            if i < t.len() {
                assert(s[i] == t[i]);
            }
        }
    }
}

/// What is written of a list behind its first element, with one more element.
proof fn lemma_longer_tail(v: Seq<usize>, x: usize, i: int)
    requires
        0 <= i <= v.len(),
    ensures
        text::list_tail(v.push(x), i) == text::list_tail(v, i) + ", "@ + text::decimal_text(
            x as nat,
        ),
    decreases v.len() - i,
{
    let w = v.push(x);
    if i < v.len() {
        lemma_longer_tail(v, x, i + 1);
        assert(w[i] == v[i]);
        assert(text::list_tail(w, i) =~= text::list_tail(v, i) + ", "@ + text::decimal_text(
            x as nat,
        ));
    } else {
        reveal_with_fuel(text::list_tail, 2);
        assert(w[i] == x);
        assert(text::list_tail(w, i + 1) =~= seq![]);
        assert(text::list_tail(v, i) =~= seq![]);
        assert(text::list_tail(w, i) =~= text::list_tail(v, i) + ", "@ + text::decimal_text(
            x as nat,
        ));
    }
}

/// A list is written in brackets, an element that is appended behind the others and a comma.
pub proof fn lists_grow_behind(v: Seq<usize>, x: usize)
    ensures
        text::list_text(seq![]) == "[]"@,
        text::list_text(seq![x]) == "["@ + text::decimal_text(x as nat) + "]"@,
        v.len() > 0 ==> text::list_text(v.push(x)) == text::list_text(v).drop_last() + ", "@
            + text::decimal_text(x as nat) + "]"@,
{
    reveal_strlit("]");
    reveal_strlit("[]");
    let one = seq![x];
    assert(text::list_tail(one, 1) =~= seq![]);
    assert(text::list_text(one) =~= "["@ + text::decimal_text(x as nat) + "]"@);
    if v.len() > 0 {
        lemma_longer_tail(v, x, 1);
        assert(v.push(x)[0] == v[0]);
        assert(text::list_text(v).drop_last() =~= "["@ + text::decimal_text(v[0] as nat)
            + text::list_tail(v, 1));
        assert(text::list_text(v.push(x)) =~= text::list_text(v).drop_last() + ", "@
            + text::decimal_text(x as nat) + "]"@);
    }
}

} // verus!
