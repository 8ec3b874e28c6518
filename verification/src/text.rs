//! Text that the charts and forms show: trimming, decimal numbers and repeated symbols.
use vstd::prelude::*;
use vstd::string::*;

verus! {

/// The characters that count as white space.
pub open spec fn is_space(c: char) -> bool {
    let n = c as u32;
    (9 <= n <= 13) || n == 0x20 || n == 0x85 || n == 0xa0 || n == 0x1680 || (0x2000 <= n <= 0x200a)
        || n == 0x2028 || n == 0x2029 || n == 0x202f || n == 0x205f || n == 0x3000
}

/// Whether `c` counts as white space.
pub fn is_white_space(c: char) -> (r: bool)
    ensures
        r == is_space(c),
{
    let n: u32 = c as u32;
    (9 <= n && n <= 13) || n == 0x20 || n == 0x85 || n == 0xa0 || n == 0x1680 || (0x2000 <= n && n
        <= 0x200a) || n == 0x2028 || n == 0x2029 || n == 0x202f || n == 0x205f || n == 0x3000
}

/// `s` without the white space at its start.
pub open spec fn without_leading(s: Seq<char>) -> Seq<char>
    decreases s.len(),
{
    if s.len() > 0 && is_space(s[0]) {
        without_leading(s.drop_first())
    } else {
        s
    }
}

/// `s` without the white space at its end.
pub open spec fn without_trailing(s: Seq<char>) -> Seq<char>
    decreases s.len(),
{
    if s.len() > 0 && is_space(s.last()) {
        without_trailing(s.drop_last())
    } else {
        s
    }
}

/// `s` without the white space at its two ends.
pub open spec fn trimmed(s: Seq<char>) -> Seq<char> {
    without_trailing(without_leading(s))
}

/// `s` without the occurrences of `c` at its end.
pub open spec fn without_trailing_char(s: Seq<char>, c: char) -> Seq<char>
    decreases s.len(),
{
    if s.len() > 0 && s.last() == c {
        without_trailing_char(s.drop_last(), c)
    } else {
        s
    }
}

/// `s` without the white space at its two ends.
pub fn trim(s: &str) -> (r: String)
    ensures
        r@ == trimmed(s@),
{
    let n: usize = s.unicode_len();
    let mut i: usize = 0;
    let ghost text = s@;
    proof {
        assert(text.subrange(0, n as int) =~= text);
    }
    while i < n && is_white_space(s.get_char(i))
        invariant
            i <= n,
            n == text.len(),
            text == s@,
            without_leading(text.subrange(i as int, n as int)) == without_leading(text),
        decreases n - i,
    {
        proof {
            let rest = text.subrange(i as int, n as int);
            assert(rest.drop_first() =~= text.subrange(i + 1, n as int));
            assert(rest[0] == text[i as int]);
        }
        i += 1;
    }
    proof {
        if i < n {
            assert(text.subrange(i as int, n as int)[0] == text[i as int]);
        }
        assert(without_leading(text) == text.subrange(i as int, n as int));
    }
    let mut j: usize = n;
    while j > i && is_white_space(s.get_char(j - 1))
        invariant
            i <= j <= n,
            n == text.len(),
            text == s@,
            without_trailing(text.subrange(i as int, j as int)) == trimmed(text),
        decreases j,
    {
        proof {
            let rest = text.subrange(i as int, j as int);
            assert(rest.drop_last() =~= text.subrange(i as int, j - 1));
            assert(rest.last() == text[j - 1]);
        }
        j -= 1;
    }
    proof {
        if j > i {
            assert(text.subrange(i as int, j as int).last() == text[j - 1]);
        }
    }
    s.substring_char(i, j).to_owned()
}

/// `s` without the slashes at its end.
pub fn trim_end_slashes(s: &str) -> (r: String)
    ensures
        r@ == without_trailing_char(s@, '/'),
{
    let n: usize = s.unicode_len();
    let mut j: usize = n;
    let ghost text = s@;
    proof {
        assert(text.subrange(0, n as int) =~= text);
    }
    while j > 0 && s.get_char(j - 1) == '/'
        invariant
            j <= n,
            n == text.len(),
            text == s@,
            without_trailing_char(text.subrange(0, j as int), '/') == without_trailing_char(
                text,
                '/',
            ),
        decreases j,
    {
        proof {
            let rest = text.subrange(0, j as int);
            assert(rest.drop_last() =~= text.subrange(0, j - 1));
            assert(rest.last() == text[j - 1]);
        }
        j -= 1;
    }
    proof {
        if j > 0 {
            assert(text.subrange(0, j as int).last() == text[j - 1]);
        }
    }
    s.substring_char(0, j).to_owned()
}

/// The decimal digit of `d`.
pub open spec fn digit(d: int) -> char {
    (48 + d) as char
}

/// `n` in decimal, without leading zeros.
pub open spec fn decimal_digits(n: nat) -> Seq<char>
    decreases n,
{
    if n < 10 {
        seq![digit(n as int)]
    } else {
        decimal_digits(n / 10).push(digit((n % 10) as int))
    }
}

fn digit_str(d: u64) -> (s: &'static str)
    requires
        d < 10,
    ensures
        s@ == seq![digit(d as int)],
{
    proof {
        reveal_strlit("0");
        reveal_strlit("1");
        reveal_strlit("2");
        reveal_strlit("3");
        reveal_strlit("4");
        reveal_strlit("5");
        reveal_strlit("6");
        reveal_strlit("7");
        reveal_strlit("8");
        reveal_strlit("9");
        assert(digit(0) == '0' && digit(1) == '1' && digit(2) == '2' && digit(3) == '3' && digit(4)
            == '4' && digit(5) == '5' && digit(6) == '6' && digit(7) == '7' && digit(8) == '8'
            && digit(9) == '9');
    }
    let s: &'static str = if d == 0 {
        "0"
    } else if d == 1 {
        "1"
    } else if d == 2 {
        "2"
    } else if d == 3 {
        "3"
    } else if d == 4 {
        "4"
    } else if d == 5 {
        "5"
    } else if d == 6 {
        "6"
    } else if d == 7 {
        "7"
    } else if d == 8 {
        "8"
    } else {
        "9"
    };
    assert(s@ =~= seq![digit(d as int)]);
    s
}

/// `n` in decimal, without leading zeros.
pub fn decimal(n: u64) -> (s: String)
    ensures
        s@ == decimal_digits(n as nat),
    decreases n,
{
    if n < 10 {
        digit_str(n).to_owned()
    } else {
        let head: String = decimal(n / 10);
        let r: String = head.concat(digit_str(n % 10));
        proof {
            assert(r@ =~= decimal_digits(n as nat));
        }
        r
    }
}

/// `n` in decimal with at least two digits.
pub open spec fn two_digits(n: nat) -> Seq<char> {
    if n < 10 {
        seq!['0'] + decimal_digits(n)
    } else {
        decimal_digits(n)
    }
}

/// `n` in decimal with at least two digits.
pub fn decimal_two(n: u64) -> (s: String)
    ensures
        s@ == two_digits(n as nat),
{
    if n < 10 {
        proof {
            reveal_strlit("0");
        }
        let s: String = "0".to_owned().concat(digit_str(n));
        assert(s@ =~= two_digits(n as nat));
        s
    } else {
        decimal(n)
    }
}

/// `n` stars.
pub open spec fn stars(n: nat) -> Seq<char> {
    Seq::new(n, |i: int| '\u{2605}')
}

/// `prefix` followed by `n` stars.
pub fn with_stars(prefix: &str, n: u8) -> (s: String)
    ensures
        s@ == prefix@ + stars(n as nat),
{
    proof {
        reveal_strlit("\u{2605}");
    }
    let mut s: String = prefix.to_owned();
    let mut i: u8 = 0;
    assert(s@ =~= prefix@ + stars(0));
    while i < n
        invariant
            i <= n,
            s@ == prefix@ + stars(i as nat),
            "\u{2605}"@ == seq!['\u{2605}'],
        decreases n - i,
    {
        s.append("\u{2605}");
        i += 1;
        assert(s@ =~= prefix@ + stars(i as nat));
    }
    s
}

/// A text that neither starts nor ends with white space is not changed by trimming.
pub proof fn lemma_trimmed_is_kept(s: Seq<char>)
    requires
        s.len() > 0 ==> !is_space(s[0]) && !is_space(s.last()),
    ensures
        trimmed(s) == s,
{
}

/// Trimming leaves no white space at either end.
pub proof fn trimming_leaves_no_white_ends(s: Seq<char>)
    ensures
        trimmed(s).len() > 0 ==> !is_space(trimmed(s)[0]) && !is_space(trimmed(s).last()),
        trimmed(trimmed(s)) == trimmed(s),
{
    lemma_leading_ends(s);
    lemma_trailing_ends(without_leading(s));
    lemma_trimmed_is_kept(trimmed(s));
}

proof fn lemma_leading_ends(s: Seq<char>)
    ensures
        without_leading(s).len() > 0 ==> !is_space(without_leading(s)[0]),
    decreases s.len(),
{
    if s.len() > 0 && is_space(s[0]) {
        lemma_leading_ends(s.drop_first());
    }
}

proof fn lemma_trailing_ends(s: Seq<char>)
    ensures
        without_trailing(s).len() > 0 ==> !is_space(without_trailing(s).last()),
        without_trailing(s).len() > 0 ==> without_trailing(s)[0] == s[0],
    decreases s.len(),
{
    if s.len() > 0 && is_space(s.last()) {
        lemma_trailing_ends(s.drop_last());
    }
}

/// Decimal numbers hold digits only.
pub proof fn lemma_decimal_is_digits(n: nat)
    ensures
        decimal_digits(n).len() > 0,
        forall|i: int|
            0 <= i < decimal_digits(n).len() ==> '0' <= #[trigger] decimal_digits(n)[i] <= '9',
    decreases n,
{
    if n >= 10 {
        lemma_decimal_is_digits(n / 10);
        let head = decimal_digits(n / 10);
        let all = decimal_digits(n);
        assert forall|i: int| 0 <= i < all.len() implies '0' <= #[trigger] all[i] <= '9' by {
            if i < head.len() {
                assert(all[i] == head[i]);
            }
        }
    }
}

/// Different numbers are written differently.
pub proof fn lemma_decimal_injective(a: nat, b: nat)
    requires
        decimal_digits(a) == decimal_digits(b),
    ensures
        a == b,
    decreases a,
{
    lemma_decimal_is_digits(a / 10);
    lemma_decimal_is_digits(b / 10);
    let x = decimal_digits(a);
    let y = decimal_digits(b);
    assert(x.last() == y.last());
    assert(x.last() == digit((a % 10) as int)) by {
        if a < 10 {
            assert(a % 10 == a);
        }
    }
    assert(y.last() == digit((b % 10) as int)) by {
        if b < 10 {
            assert(b % 10 == b);
        }
    }
    if a >= 10 && b >= 10 {
        assert(x.drop_last() =~= decimal_digits(a / 10));
        assert(y.drop_last() =~= decimal_digits(b / 10));
        lemma_decimal_injective(a / 10, b / 10);
    }
}

} // verus!
