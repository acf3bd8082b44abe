//! Text building blocks: decimal numerals and joining lines.
use vstd::prelude::*;

verus! {

/// The ten decimal digits, in order of value.
pub open spec fn digit_chars() -> Seq<char> {
    seq!['0', '1', '2', '3', '4', '5', '6', '7', '8', '9']
}

/// The decimal numeral of `n`, without leading zeros (`0` for zero).
pub open spec fn decimal(n: nat) -> Seq<char>
    decreases n,
{
    if n < 10 {
        seq![digit_chars()[n as int]]
    } else {
        decimal(n / 10).push(digit_chars()[(n % 10) as int])
    }
}

/// The number that a text of decimal digits stands for.
pub open spec fn numeral_value(text: Seq<char>) -> int
    decreases text.len(),
{
    if text.len() == 0 {
        0
    } else {
        numeral_value(text.drop_last()) * 10 + (text.last() as int - '0' as int)
    }
}

/// The decimal numeral of `n` is made of decimal digits, stands for `n`, and
/// has no leading zero.
pub proof fn decimal_reads_back(n: nat)
    ensures
        decimal(n).len() > 0,
        forall|i: int| 0 <= i < decimal(n).len() ==> '0' <= #[trigger] decimal(n)[i] <= '9',
        numeral_value(decimal(n)) == n,
        n > 0 ==> decimal(n)[0] != '0',
    decreases n,
{
    if n >= 10 {
        decimal_reads_back(n / 10);
        let d = digit_chars()[(n % 10) as int];
        assert(d as int - '0' as int == n % 10);
        assert(decimal(n) == decimal(n / 10).push(d));
        assert(decimal(n).drop_last() =~= decimal(n / 10));
        assert(numeral_value(decimal(n)) == numeral_value(decimal(n / 10)) * 10 + n % 10);
        assert(decimal(n)[0] == decimal(n / 10)[0]);
        assert forall|i: int| 0 <= i < decimal(n).len() implies '0' <= #[trigger] decimal(n)[i] <= '9' by {
            if i < decimal(n / 10).len() {
                assert(decimal(n)[i] == decimal(n / 10)[i]);
            }
        }
    } else {
        let d = digit_chars()[n as int];
        assert(d as int - '0' as int == n);
        assert(decimal(n).drop_last() =~= Seq::<char>::empty());
        assert(numeral_value(decimal(n)) == numeral_value(Seq::<char>::empty()) * 10 + (d as int
            - '0' as int));
    }
}

/// `parts` joined with `sep` between neighbours (the empty text for no part).
pub open spec fn join(parts: Seq<Seq<char>>, sep: Seq<char>) -> Seq<char>
    decreases parts.len(),
{
    if parts.len() == 0 {
        Seq::empty()
    } else if parts.len() == 1 {
        parts[0]
    } else {
        join(parts.drop_last(), sep) + sep + parts.last()
    }
}

/// The texts of a vector of strings.
pub open spec fn texts(strings: Seq<String>) -> Seq<Seq<char>> {
    strings.map_values(|s: String| s@)
}

/// The sum of the lengths of `parts`.
pub open spec fn total_length(parts: Seq<Seq<char>>) -> nat
    decreases parts.len(),
{
    if parts.len() == 0 {
        0
    } else {
        total_length(parts.drop_last()) + parts.last().len()
    }
}

/// Joining is concatenation with the separator in front of every part but
/// the first: the first part, then each further part preceded by `sep`.
pub proof fn join_is_separated_concatenation(parts: Seq<Seq<char>>, sep: Seq<char>)
    requires
        parts.len() > 0,
    ensures
        join(parts, sep) == parts[0] + parts.drop_first().map_values(
            |p: Seq<char>| sep + p,
        ).flatten(),
    decreases parts.len(),
{
    broadcast use vstd::seq_lib::group_seq_properties;
    broadcast use Seq::group_seq_flatten;

    if parts.len() == 1 {
        assert(parts.drop_first().map_values(|p: Seq<char>| sep + p) =~= Seq::<Seq<char>>::empty());
        assert(join(parts, sep) + Seq::<char>::empty() =~= join(parts, sep));
    } else {
        let earlier = parts.drop_last();
        join_is_separated_concatenation(earlier, sep);
        let f = |p: Seq<char>| sep + p;
        assert(parts.drop_first() =~= earlier.drop_first().push(parts.last()));
        assert(parts.drop_first().map_values(f) =~= earlier.drop_first().map_values(f).push(
            sep + parts.last(),
        ));
        earlier.drop_first().map_values(f).lemma_flatten_push(sep + parts.last());
        assert(earlier[0] == parts[0]);
        assert(join(parts, sep) =~= parts[0] + parts.drop_first().map_values(f).flatten());
    }
}

/// The length of a joined text: the lengths of the parts, plus one
/// separator between each two neighbouring parts.
pub proof fn join_length(parts: Seq<Seq<char>>, sep: Seq<char>)
    requires
        parts.len() > 0,
    ensures
        join(parts, sep).len() == total_length(parts) + (parts.len() - 1) * sep.len(),
    decreases parts.len(),
{
    let n = parts.len() as int;
    let k = sep.len() as int;
    if n == 1 {
        assert(total_length(parts.drop_last()) == 0);
        assert((n - 1) * k == 0);
    } else {
        join_length(parts.drop_last(), sep);
        assert(parts.drop_last().len() - 1 == n - 2);
        assert((n - 1) * k == (n - 2) * k + k) by (nonlinear_arith);
        assert(join(parts, sep).len() == join(parts.drop_last(), sep).len() + k + parts.last().len());
    }
}

/// The one-character text of a decimal digit.
fn digit_text(d: u32) -> (text: &'static str)
    requires
        d < 10,
    ensures
        text@ == seq![digit_chars()[d as int]],
{
    proof {
        reveal_strlit("0");
        reveal_strlit("1");
        reveal_strlit("2");
        reveal_strlit("3");
        reveal_strlit("4");
        reveal_strlit("5");
        reveal_strlit("6");
        reveal_strlit("7");
        reveal_strlit("8");
        reveal_strlit("9");
    }
    match d {
        0 => "0",
        1 => "1",
        2 => "2",
        3 => "3",
        4 => "4",
        5 => "5",
        6 => "6",
        7 => "7",
        8 => "8",
        _ => "9",
    }
}

/// Appends the decimal numeral of `n` to `out`.
pub fn push_decimal(out: &mut String, n: u32)
    ensures
        final(out)@ == old(out)@ + decimal(n as nat),
    decreases n,
{
    if n >= 10 {
        push_decimal(out, n / 10);
    }
    let digit = digit_text(n % 10);
    out.append(digit);
    proof {
        if n >= 10 {
            assert(decimal(n as nat) == decimal((n / 10) as nat).push(
                digit_chars()[(n % 10) as int],
            ));
        }
        assert(old(out)@ + decimal(n as nat) =~= final(out)@) by {
            if n < 10 {
                assert(decimal(n as nat) == seq![digit_chars()[(n % 10) as int]]);
            }
        }
    }
}

/// Joins `parts` with `sep` between neighbours.
pub fn join_strings(parts: &Vec<String>, sep: &str) -> (joined: String)
    ensures
        joined@ == join(texts(parts@), sep@),
        parts@.len() > 0 ==> joined@ == parts@[0]@ + texts(parts@).drop_first().map_values(
            |p: Seq<char>| sep@ + p,
        ).flatten(),
        parts@.len() > 0 ==> joined@.len() == total_length(texts(parts@)) + (parts@.len() - 1)
            * sep@.len(),
{
    let mut joined = String::new();
    let mut i: usize = 0;
    while i < parts.len()
        invariant
            i <= parts.len(),
            joined@ == join(texts(parts@).take(i as int), sep@),
        decreases parts.len() - i,
    {
        let ghost prefix = texts(parts@).take(i as int);
        let ghost next = texts(parts@).take(i + 1);
        assert(next.drop_last() =~= prefix);
        assert(next.last() == parts@[i as int]@);
        if i > 0 {
            joined.append(sep);
        } else {
            assert(prefix.len() == 0);
            assert(joined@ =~= Seq::<char>::empty());
        }
        joined.append(parts[i].as_str());
        i = i + 1;
    }
    assert(texts(parts@).take(parts.len() as int) =~= texts(parts@));
    if parts.len() > 0 {
        proof {
            join_is_separated_concatenation(texts(parts@), sep@);
            join_length(texts(parts@), sep@);
        }
    }
    joined
}

} // verus!
