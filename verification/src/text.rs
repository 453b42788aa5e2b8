//! Names made of words and numbers.

use vstd::prelude::*;
use vstd::string::StringExecFns;

verus! {

/// The digit for a number below ten.
pub open spec fn digit(d: nat) -> char {
    ('0' as u32 + d as u32) as char
}

/// A number in decimal digits.
pub open spec fn decimal(n: nat) -> Seq<char>
    decreases n,
{
    if n < 10 {
        seq![digit(n)]
    } else {
        decimal(n / 10).push(digit(n % 10))
    }
}

/// The name of a tensor of layer `i`: `blk.`, the number of the layer, and
/// what follows, which starts with a dot.
pub open spec fn layer_name(i: nat, rest: Seq<char>) -> Seq<char> {
    "blk."@ + decimal(i) + rest
}

/// The digit for a number below ten, as text.
fn digit_text(d: usize) -> (s: &'static str)
    requires
        d < 10,
    ensures
        s@ == seq![digit(d as nat)],
{
    proof {
        reveal_strlit("0");
        reveal_strlit("1");
        reveal_strlit("2");
        reveal_strlit("3");
        reveal_strlit("4");
        reveal_strlit("5");
        reveal_strlit("6");
        reveal_strlit("7");
        reveal_strlit("8");
        reveal_strlit("9");
    }
    let s = match d {
        0 => "0",
        1 => "1",
        2 => "2",
        3 => "3",
        4 => "4",
        5 => "5",
        6 => "6",
        7 => "7",
        8 => "8",
        _ => "9",
    };
    assert(s@ =~= seq![digit(d as nat)]);
    s
}

/// Writes a number behind a text.
fn append_decimal(s: &mut String, n: usize)
    ensures
        final(s)@ == old(s)@ + decimal(n as nat),
    decreases n,
{
    if n >= 10 {
        append_decimal(s, n / 10);
    }
    s.append(digit_text(n % 10));
    assert(s@ =~= old(s)@ + decimal(n as nat));
}

/// The name of a tensor of layer `i`.
pub fn name_of(i: usize, rest: &str) -> (s: String)
    ensures
        s@ == layer_name(i as nat, rest@),
{
    let mut s = String::from_str("blk.");
    append_decimal(&mut s, i);
    s.append(rest);
    s
}

/// The texts of some strings.
pub open spec fn texts(names: Seq<String>) -> Seq<Seq<char>> {
    names.map_values(|s: String| s@)
}

/// The names of the tensors of the first `n` layers, layer by layer.
pub open spec fn all_layer_names(suffixes: Seq<Seq<char>>, n: nat) -> Seq<Seq<char>>
    decreases n,
{
    if n == 0 {
        Seq::empty()
    } else {
        all_layer_names(suffixes, (n - 1) as nat) + Seq::new(
            suffixes.len(),
            |j: int| layer_name((n - 1) as nat, suffixes[j]),
        )
    }
}

/// The given names, and behind them those of the tensors of the first `n`
/// layers.
pub fn layer_names(suffixes: &Vec<&str>, n: usize, names: Vec<String>) -> (r: Vec<String>)
    ensures
        texts(r@) == texts(names@) + all_layer_names(
            suffixes@.map_values(|s: &str| s@),
            n as nat,
        ),
{
    let ghost first = texts(names@);
    let ghost all = suffixes@.map_values(|s: &str| s@);
    let mut r = names;
    let mut i: usize = 0;
    assert(texts(r@) =~= first + all_layer_names(all, 0));
    while i < n
        invariant
            i <= n,
            all == suffixes@.map_values(|s: &str| s@),
            texts(r@) == first + all_layer_names(all, i as nat),
        decreases n - i,
    {
        let ghost before = texts(r@);
        let ghost layer = Seq::new(all.len(), |j: int| layer_name(i as nat, all[j]));
        let mut j: usize = 0;
        assert(before =~= before + layer.take(0));
        while j < suffixes.len()
            invariant
                j <= suffixes.len(),
                all == suffixes@.map_values(|s: &str| s@),
                layer == Seq::new(all.len(), |j: int| layer_name(i as nat, all[j])),
                texts(r@) == before + layer.take(j as int),
            decreases suffixes.len() - j,
        {
            let name = name_of(i, suffixes[j]);
            let ghost prior = r@;
            r.push(name);
            proof {
                assert(all[j as int] == suffixes@[j as int]@);
                assert(texts(r@) =~= texts(prior).push(name@));
                assert(layer.take(j + 1) =~= layer.take(j as int).push(name@));
            }
            j = j + 1;
            assert(texts(r@) =~= before + layer.take(j as int));
        }
        assert(layer.take(j as int) =~= layer);
        i = i + 1;
        assert(texts(r@) =~= first + all_layer_names(all, i as nat));
    }
    r
}

/// The names of the tensors of every layer are listed.
pub proof fn layer_names_are_listed(suffixes: Seq<Seq<char>>, n: nat, i: nat, j: int)
    requires
        i < n,
        0 <= j < suffixes.len(),
    ensures
        all_layer_names(suffixes, n).contains(layer_name(i, suffixes[j])),
    decreases n,
{
    let before = all_layer_names(suffixes, (n - 1) as nat);
    let last = Seq::new(suffixes.len(), |k: int| layer_name((n - 1) as nat, suffixes[k]));
    if i == n - 1 {
        assert((before + last)[before.len() + j] == layer_name(i, suffixes[j]));
    } else {
        layer_names_are_listed(suffixes, (n - 1) as nat, i, j);
        let at = choose|k: int|
            0 <= k < before.len() && #[trigger] before[k] == layer_name(i, suffixes[j]);
        assert((before + last)[at] == layer_name(i, suffixes[j]));
    }
}

/// Different numbers have different digits.
pub proof fn decimal_is_injective(a: nat, b: nat)
    requires
        decimal(a) == decimal(b),
    ensures
        a == b,
    decreases a,
{
    let x = decimal(a);
    let y = decimal(b);
    if a >= 10 {
        lemma_decimal_not_empty(a / 10);
    }
    if b >= 10 {
        lemma_decimal_not_empty(b / 10);
    }
    assert(x.last() == digit(a % 10));
    assert(y.last() == digit(b % 10));
    assert(a % 10 == b % 10);
    if a >= 10 && b >= 10 {
        assert(x.drop_last() =~= decimal(a / 10));
        assert(y.drop_last() =~= decimal(b / 10));
        decimal_is_injective(a / 10, b / 10);
    }
}

proof fn lemma_decimal_not_empty(n: nat)
    ensures
        decimal(n).len() >= 1,
    decreases n,
{
    if n >= 10 {
        lemma_decimal_not_empty(n / 10);
    }
}

/// Layers of different numbers share no tensor.
pub proof fn layer_names_differ(i: nat, j: nat, rest: Seq<char>)
    requires
        i != j,
    ensures
        layer_name(i, rest) != layer_name(j, rest),
{
    if layer_name(i, rest) == layer_name(j, rest) {
        let a = layer_name(i, rest);
        let b = layer_name(j, rest);
        let from = "blk."@.len() as int;
        let until = a.len() - rest.len();
        assert(a.subrange(from, until) =~= decimal(i));
        assert(b.subrange(from, until) =~= decimal(j));
        decimal_is_injective(i, j);
    }
}

/// The tensors outside of the layers have names of their own.
pub proof fn lemma_model_names_differ(i: nat, rest: Seq<char>)
    ensures
        layer_name(i, rest) != "output.weight"@,
        "token_embd.weight"@ != "output.weight"@,
        "output_norm.weight"@ != "output.weight"@,
{
    reveal_strlit("blk.");
    reveal_strlit("output.weight");
    reveal_strlit("token_embd.weight");
    reveal_strlit("output_norm.weight");
    assert(layer_name(i, rest)[0] == 'b');
    assert("output.weight"@[0] == 'o');
    assert("token_embd.weight"@[0] == 't');
    assert("output.weight"@[6] == '.');
    assert("output_norm.weight"@[6] == '_');
}

/// The number that decimal digits stand for.
pub open spec fn number_of(s: Seq<char>) -> int
    decreases s.len(),
{
    if s.len() == 0 {
        0
    } else {
        10 * number_of(s.drop_last()) + (s.last() as int - '0' as int)
    }
}

/// The digits of a number stand for it, from 0 to 9 each, and do not start with a 0
/// but for the number 0 itself.
pub proof fn decimals_stand_for_numbers(n: nat)
    ensures
        number_of(decimal(n)) == n,
        decimal(n).len() > 0,
        n > 0 ==> decimal(n)[0] != '0',
        n == 0 ==> decimal(n) == seq!['0'],
        forall|i: int| 0 <= i < decimal(n).len() ==> '0' <= #[trigger] decimal(n)[i] <= '9',
    decreases n,
{
    reveal_with_fuel(number_of, 2);
    let s = decimal(n);
    if n >= 10 {
        decimals_stand_for_numbers(n / 10);
        assert(s.drop_last() =~= decimal(n / 10));
        assert(decimal(n / 10)[0] == s[0]);
        assert forall|i: int| 0 <= i < s.len() implies '0' <= #[trigger] s[i] <= '9' by {
            if i < s.len() - 1 {
                assert(s[i] == decimal(n / 10)[i]);
            }
        }
    } else {
        assert(s.drop_last() =~= Seq::<char>::empty());
    }
}

} // verus!
