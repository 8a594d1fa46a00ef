use vstd::prelude::*;

use crate::strings::{decimal, digit_char, push_char, push_decimal};

verus! {

/// The three digits of `m` (below 1000), with leading zeros.
pub open spec fn three_digits(m: nat) -> Seq<char> {
    seq![digit_char(m / 100), digit_char((m / 10) % 10), digit_char(m % 10)]
}

/// `n` in decimal with a comma between each group of three digits, counted from the
/// right.
pub open spec fn grouped(n: nat) -> Seq<char>
    decreases n,
{
    if n < 1000 {
        decimal(n)
    } else {
        grouped(n / 1000) + seq![','] + three_digits(n % 1000)
    }
}

/// `s` without its commas.
pub open spec fn without_commas(s: Seq<char>) -> Seq<char> {
    s.filter(|c: char| c != ',')
}

proof fn lemma_no_commas_in_digits(s: Seq<char>)
    requires
        forall|i: int| 0 <= i < s.len() ==> #[trigger] s[i] != ',',
    ensures
        without_commas(s) == s,
    decreases s.len(),
{
    reveal(Seq::filter);
    if s.len() > 0 {
        lemma_no_commas_in_digits(s.drop_last());
        assert(s.drop_last().push(s.last()) =~= s);
    }
}

proof fn lemma_decimal_digits(n: nat)
    ensures
        forall|i: int| 0 <= i < decimal(n).len() ==> #[trigger] decimal(n)[i] != ',',
    decreases n,
{
    if n >= 10 {
        lemma_decimal_digits(n / 10);
        let d = decimal(n);
        assert forall|i: int| 0 <= i < d.len() implies #[trigger] d[i] != ',' by {
            if i < d.len() - 1 {
                assert(d[i] == decimal(n / 10)[i]);
            }
        }
    }
}

proof fn lemma_decimal_split(n: nat)
    requires
        n >= 1000,
    ensures
        decimal(n) == decimal(n / 1000) + three_digits(n % 1000),
{
    let q = n / 1000;
    let r = n % 1000;
    assert(n / 10 == 100 * q + r / 10 && n / 100 == 10 * q + r / 100 && (n / 10) / 10 == n / 100
        && (n / 100) / 10 == q && (n / 10) % 10 == (r / 10) % 10 && (n / 100) % 10 == r / 100
        && n % 10 == r % 10) by (nonlinear_arith)
        requires
            q == n / 1000,
            r == n % 1000,
            n >= 1000,
    ;
    assert(decimal(n) == decimal(n / 10).push(digit_char(n % 10)));
    assert(decimal(n / 10) == decimal(n / 100).push(digit_char((n / 10) % 10)));
    assert(decimal(n / 100) == decimal(q).push(digit_char((n / 100) % 10)));
    assert(decimal(n) =~= decimal(q) + three_digits(r));
}

/// Grouping only inserts separators: without its commas, `format_number`'s text is the
/// plain decimal representation.
pub proof fn lemma_grouping_keeps_digits(n: nat)
    ensures
        without_commas(grouped(n)) == decimal(n),
    decreases n,
{
    broadcast use vstd::seq_lib::group_filter_ensures;

    if n < 1000 {
        lemma_decimal_digits(n);
        lemma_no_commas_in_digits(decimal(n));
    } else {
        let q = n / 1000;
        let r = n % 1000;
        lemma_grouping_keeps_digits(q);
        lemma_decimal_split(n);
        let f = |c: char| c != ',';
        let t = three_digits(r);
        lemma_no_commas_in_digits(t);
        Seq::filter_distributes_over_add(grouped(q) + seq![','], t, f);
        Seq::filter_distributes_over_add(grouped(q), seq![','], f);
        reveal(Seq::filter);
        assert(seq![','] =~= Seq::<char>::empty().push(','));
        Seq::<char>::empty().lemma_filter_push(',', f);
        assert(Seq::<char>::empty().filter(f) =~= Seq::<char>::empty());
        assert(seq![','].filter(f) =~= Seq::<char>::empty());
        assert(without_commas(grouped(n)) =~= decimal(q) + t);
    }
}

fn push_digit(s: &mut String, d: u64)
    requires
        d < 10,
    ensures
        final(s)@ == old(s)@.push(digit_char(d as nat)),
{
    let b: u8 = d as u8;
    let c: char = (48u8 + b) as char;
    proof {
        assert(c == digit_char(d as nat));
    }
    push_char(s, c);
}

fn push_grouped(s: &mut String, n: u64)
    ensures
        final(s)@ == old(s)@ + grouped(n as nat),
    decreases n,
{
    if n < 1000 {
        push_decimal(s, n);
        return;
    }
    push_grouped(s, n / 1000);
    let ghost before = s@;
    push_char(s, ',');
    let m = n % 1000;
    push_digit(s, m / 100);
    push_digit(s, (m / 10) % 10);
    push_digit(s, m % 10);
    proof {
        assert(s@ =~= before + seq![','] + three_digits(m as nat));
        assert(old(s)@ + grouped(n as nat) =~= old(s)@ + grouped((n / 1000) as nat) + seq![',']
            + three_digits(m as nat));
    }
}

/// Formats a count with thousands separators, such as `1,234,567`.
pub fn format_number(n: u64) -> (s: String)
    ensures
        s@ == grouped(n as nat),
{
    let mut s = String::new();
    push_grouped(&mut s, n);
    proof {
        assert(Seq::<char>::empty() + grouped(n as nat) =~= grouped(n as nat));
    }
    s
}

/// The spinner's frames, in the order they are shown.
pub open spec fn spinner_frames() -> Seq<char> {
    seq!['⠋', '⠙', '⠹', '⠸', '⠼', '⠴', '⠦', '⠧', '⠇', '⠏']
}

/// The spinner frame shown at tick `tick`: the frames turn over every ten ticks.
pub fn spinner_frame(tick: usize) -> (c: char)
    ensures
        c == spinner_frames()[(tick % 10) as int],
{
    let frames: [char; 10] = ['⠋', '⠙', '⠹', '⠸', '⠼', '⠴', '⠦', '⠧', '⠇', '⠏'];
    proof {
        assert(frames@ =~= spinner_frames());
    }
    frames[tick % 10]
}

} // verus!
