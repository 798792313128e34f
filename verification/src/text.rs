//! Text that messages and weight names are made of.
use vstd::prelude::*;

verus! {

/// The digit `d` as a character.
pub open spec fn digit_char(d: int) -> char {
    if d == 0 {
        '0'
    } else if d == 1 {
        '1'
    } else if d == 2 {
        '2'
    } else if d == 3 {
        '3'
    } else if d == 4 {
        '4'
    } else if d == 5 {
        '5'
    } else if d == 6 {
        '6'
    } else if d == 7 {
        '7'
    } else if d == 8 {
        '8'
    } else {
        '9'
    }
}

/// `n` in decimal.
pub open spec fn decimal_text(n: nat) -> Seq<char>
    decreases n,
{
    if n < 10 {
        seq![digit_char(n as int)]
    } else {
        decimal_text(n / 10).push(digit_char((n % 10) as int))
    }
}

/// The numbers `v[i..]`, each after a comma and a space.
pub open spec fn list_tail(v: Seq<usize>, i: int) -> Seq<char>
    decreases v.len() - i,
{
    if i < 0 || i >= v.len() {
        seq![]
    } else {
        ", "@ + decimal_text(v[i] as nat) + list_tail(v, i + 1)
    }
}

/// The list of numbers `v` in square brackets.
pub open spec fn list_text(v: Seq<usize>) -> Seq<char> {
    if v.len() == 0 {
        "[]"@
    } else {
        "["@ + decimal_text(v[0] as nat) + list_tail(v, 1) + "]"@
    }
}

/// The digit `d` as text.
fn digit(d: usize) -> (r: &'static str)
    requires
        d < 10,
    ensures
        r@ == seq![digit_char(d as int)],
{
    proof {
        reveal_strlit("0");
        reveal_strlit("1");
        reveal_strlit("2");
        reveal_strlit("3");
        reveal_strlit("4");
        reveal_strlit("5");
        reveal_strlit("6");
        reveal_strlit("7");
        reveal_strlit("8");
        reveal_strlit("9");
    }
    match d {
        0 => "0",
        1 => "1",
        2 => "2",
        3 => "3",
        4 => "4",
        5 => "5",
        6 => "6",
        7 => "7",
        8 => "8",
        _ => "9",
    }
}

/// `n` in decimal.
pub fn decimal(n: usize) -> (r: String)
    ensures
        r@ == decimal_text(n as nat),
    decreases n,
{
    if n < 10 {
        digit(n).to_owned()
    } else {
        let mut s: String = decimal(n / 10);
        s.append(digit(n % 10));
        assert(s@ =~= decimal_text(n as nat));
        s
    }
}

/// The list of numbers `v` in square brackets.
pub fn list(v: &Vec<usize>) -> (r: String)
    ensures
        r@ == list_text(v@),
{
    let n: usize = v.len();
    if n == 0 {
        return "[]".to_owned();
    }
    let mut tail: String = "".to_owned();
    proof {
        reveal_strlit("");
        assert(tail@ =~= list_tail(v@, n as int));
    }
    let mut i: usize = n;
    while i > 1
        invariant
            1 <= i <= n,
            n == v@.len(),
            tail@ == list_tail(v@, i as int),
        decreases i,
    {
        i = i - 1;
        let mut s: String = ", ".to_owned();
        s.append(decimal(v[i]).as_str());
        s.append(tail.as_str());
        tail = s;
    }
    let mut out: String = "[".to_owned();
    out.append(decimal(v[0]).as_str());
    out.append(tail.as_str());
    out.append("]");
    out
}

/// `a` followed by `b`.
pub fn join(a: &str, b: &str) -> (r: String)
    ensures
        r@ == a@ + b@,
{
    let mut s: String = a.to_owned();
    s.append(b);
    s
}

/// `a` followed by `b` and `c`.
pub fn join3(a: &str, b: &str, c: &str) -> (r: String)
    ensures
        r@ == a@ + b@ + c@,
{
    let mut s: String = a.to_owned();
    s.append(b);
    s.append(c);
    s
}

/// Whether two texts are equal.
pub fn same(a: &str, b: &str) -> (r: bool)
    ensures
        r == (a@ == b@),
{
    a.to_owned() == b.to_owned()
}

/// `s` followed by `t`.
pub fn more(s: String, t: &str) -> (r: String)
    ensures
        r@ == s@ + t@,
{
    let mut out: String = s;
    out.append(t);
    out
}

/// `s` followed by `n` in decimal.
pub fn more_number(s: String, n: usize) -> (r: String)
    ensures
        r@ == s@ + decimal_text(n as nat),
{
    let d: String = decimal(n);
    more(s, d.as_str())
}

} // verus!
