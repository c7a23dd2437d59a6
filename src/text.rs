//! Rendering: decimal digits, pluralised unit phrases and list grammar.
use vstd::prelude::*;

verus! {

/// The decimal digit character for `d < 10`.
pub open spec fn digit_char(d: nat) -> char {
    if d == 0 {
        '0'
    } else if d == 1 {
        '1'
    } else if d == 2 {
        '2'
    } else if d == 3 {
        '3'
    } else if d == 4 {
        '4'
    } else if d == 5 {
        '5'
    } else if d == 6 {
        '6'
    } else if d == 7 {
        '7'
    } else if d == 8 {
        '8'
    } else {
        '9'
    }
}

/// The decimal representation of `n`, most significant digit first, no leading zeros.
pub open spec fn decimal(n: nat) -> Seq<char>
    decreases n,
{
    if n < 10 {
        seq![digit_char(n)]
    } else {
        decimal(n / 10).push(digit_char(n % 10))
    }
}

fn digit_str(d: u128) -> (r: &'static str)
    requires
        d < 10,
    ensures
        r@ == seq![digit_char(d as nat)],
{
    proof {
        reveal_strlit("0");
        reveal_strlit("1");
        reveal_strlit("2");
        reveal_strlit("3");
        reveal_strlit("4");
        reveal_strlit("5");
        reveal_strlit("6");
        reveal_strlit("7");
        reveal_strlit("8");
        reveal_strlit("9");
    }
    if d == 0 {
        "0"
    } else if d == 1 {
        "1"
    } else if d == 2 {
        "2"
    } else if d == 3 {
        "3"
    } else if d == 4 {
        "4"
    } else if d == 5 {
        "5"
    } else if d == 6 {
        "6"
    } else if d == 7 {
        "7"
    } else if d == 8 {
        "8"
    } else {
        "9"
    }
}

/// Appends the decimal digits of `n` to `out`.
pub fn push_decimal(out: &mut String, n: u128)
    ensures
        final(out)@ == old(out)@ + decimal(n as nat),
    decreases n,
{
    if n < 10 {
        out.append(digit_str(n));
    } else {
        push_decimal(out, n / 10);
        out.append(digit_str(n % 10));
        assert(decimal(n as nat) == decimal((n / 10) as nat).push(digit_char((n % 10) as nat)));
    }
}

/// One entry of a rendered list: the magnitude, a space and the unit name,
/// with a trailing "s" on every magnitude but 1.
pub open spec fn phrase(v: nat, name: Seq<char>) -> Seq<char> {
    decimal(v) + " "@ + name + (if v == 1 {
        ""@
    } else {
        "s"@
    })
}

/// The items joined by ", ".
pub open spec fn comma_list(items: Seq<Seq<char>>) -> Seq<char>
    decreases items.len(),
{
    if items.len() == 0 {
        Seq::empty()
    } else if items.len() == 1 {
        items[0]
    } else {
        comma_list(items.drop_last()) + ", "@ + items.last()
    }
}

/// English list grammar: one item alone, two joined by " and ", three or more
/// separated by commas with ", and " before the last (the serial comma).
pub open spec fn list_text(items: Seq<Seq<char>>) -> Seq<char> {
    if items.len() == 0 {
        Seq::empty()
    } else if items.len() == 1 {
        items[0]
    } else if items.len() == 2 {
        items[0] + " and "@ + items[1]
    } else {
        comma_list(items.drop_last()) + ", and "@ + items.last()
    }
}

/// The views of a sequence of strings.
pub open spec fn views(items: Seq<String>) -> Seq<Seq<char>> {
    items.map_values(|s: String| s@)
}

/// Builds the phrase for magnitude `v` of the unit called `name`.
pub fn unit_phrase(v: u128, name: &str) -> (r: String)
    ensures
        r@ == phrase(v as nat, name@),
{
    let mut out = String::new();
    push_decimal(&mut out, v);
    out.append(" ");
    out.append(name);
    if v != 1 {
        out.append("s");
    } else {
        proof {
            reveal_strlit("");
        }
        assert(out@ =~= out@ + ""@);
    }
    out
}

/// Joins the items with English list grammar.
pub fn join_list(items: &Vec<String>) -> (r: String)
    ensures
        r@ == list_text(views(items@)),
{
    let n = items.len();
    let ghost v = views(items@);
    let mut out = String::new();
    if n == 0 {
        return out;
    }
    if n == 1 {
        out.append(items[0].as_str());
        assert(out@ =~= list_text(v));
        return out;
    }
    if n == 2 {
        out.append(items[0].as_str());
        out.append(" and ");
        out.append(items[1].as_str());
        return out;
    }
    out.append(items[0].as_str());
    assert(v.take(1).drop_last() =~= Seq::<Seq<char>>::empty());
    assert(out@ == comma_list(v.take(1)));
    let mut k: usize = 1;
    while k < n - 1
        invariant
            1 <= k <= n - 1,
            n == items@.len(),
            v == views(items@),
            out@ == comma_list(v.take(k as int)),
        decreases n - k,
    {
        out.append(", ");
        out.append(items[k].as_str());
        assert(v.take(k + 1).drop_last() =~= v.take(k as int));
        k = k + 1;
    }
    out.append(", and ");
    out.append(items[n - 1].as_str());
    assert(v.take(n - 1) =~= v.drop_last());
    out
}


/// List grammar: a single item stands alone, two are joined by " and ", and
/// three or more are separated by commas with ", and " before the last.
pub proof fn lemma_list_grammar(items: Seq<Seq<char>>)
    ensures
        items.len() == 1 ==> list_text(items) == items[0],
        items.len() == 2 ==> list_text(items) == items[0] + " and "@ + items[1],
        items.len() >= 3 ==> list_text(items) == comma_list(items.drop_last()) + ", and "@
            + items.last(),
        items.len() >= 2 ==> comma_list(items) == comma_list(items.drop_last()) + ", "@
            + items.last(),
{
}

} // verus!
