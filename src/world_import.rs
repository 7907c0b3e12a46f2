use vstd::prelude::*;

verus! {

/// The character of one decimal digit.
pub open spec fn digit(d: nat) -> char {
    if d == 0 {
        '0'
    } else if d == 1 {
        '1'
    } else if d == 2 {
        '2'
    } else if d == 3 {
        '3'
    } else if d == 4 {
        '4'
    } else if d == 5 {
        '5'
    } else if d == 6 {
        '6'
    } else if d == 7 {
        '7'
    } else if d == 8 {
        '8'
    } else {
        '9'
    }
}

/// `n` in decimal, without leading zeros.
pub open spec fn decimal(n: nat) -> Seq<char>
    decreases n,
{
    if n < 10 {
        seq![digit(n)]
    } else {
        decimal(n / 10).push(digit(n % 10))
    }
}

/// How long an import took, in the largest units that fit: milliseconds
/// alone under a second, seconds and milliseconds under a minute, minutes and
/// seconds under an hour, and hours, minutes and seconds beyond.
pub open spec fn duration_text(secs: nat, millis: nat) -> Seq<char> {
    if secs == 0 {
        decimal(millis) + seq!['m', 's']
    } else if secs < 60 {
        decimal(secs) + seq!['s', ' '] + decimal(millis) + seq!['m', 's']
    } else if secs < 3600 {
        decimal(secs / 60) + seq!['m', ' '] + decimal(secs % 60) + seq!['s']
    } else {
        decimal(secs / 3600) + seq!['h', ' '] + decimal((secs % 3600) / 60) + seq!['m', ' ']
            + decimal(secs % 60) + seq!['s']
    }
}

/// Relies on String::push: the character is appended at the end.
#[verifier::external_body]
fn push_char(s: &mut String, c: char)
    ensures
        final(s)@ == old(s)@.push(c),
{
    s.push(c);
}

fn digit_char(d: u64) -> (c: char)
    requires
        d < 10,
    ensures
        c == digit(d as nat),
{
    if d == 0 {
        '0'
    } else if d == 1 {
        '1'
    } else if d == 2 {
        '2'
    } else if d == 3 {
        '3'
    } else if d == 4 {
        '4'
    } else if d == 5 {
        '5'
    } else if d == 6 {
        '6'
    } else if d == 7 {
        '7'
    } else if d == 8 {
        '8'
    } else {
        '9'
    }
}

fn push_decimal(out: &mut String, n: u64)
    ensures
        final(out)@ == old(out)@ + decimal(n as nat),
    decreases n,
{
    if n >= 10 {
        push_decimal(out, n / 10);
    }
    push_char(out, digit_char(n % 10));
    assert(out@ =~= old(out)@ + decimal(n as nat));
}

fn push_two(out: &mut String, a: char, b: char)
    ensures
        final(out)@ == old(out)@ + seq![a, b],
{
    push_char(out, a);
    push_char(out, b);
    assert(out@ =~= old(out)@ + seq![a, b]);
}

/// The text that reports an import's duration of `secs` whole seconds and
/// `millis` milliseconds beyond them.
pub fn format_duration(secs: u64, millis: u32) -> (r: String)
    ensures
        r@ == duration_text(secs as nat, millis as nat),
{
    let mut out = String::new();
    if secs == 0 {
        push_decimal(&mut out, millis as u64);
        push_two(&mut out, 'm', 's');
    } else if secs < 60 {
        push_decimal(&mut out, secs);
        push_two(&mut out, 's', ' ');
        push_decimal(&mut out, millis as u64);
        push_two(&mut out, 'm', 's');
    } else if secs < 3600 {
        push_decimal(&mut out, secs / 60);
        push_two(&mut out, 'm', ' ');
        push_decimal(&mut out, secs % 60);
        push_char(&mut out, 's');
    } else {
        push_decimal(&mut out, secs / 3600);
        push_two(&mut out, 'h', ' ');
        push_decimal(&mut out, (secs % 3600) / 60);
        push_two(&mut out, 'm', ' ');
        push_decimal(&mut out, secs % 60);
        push_char(&mut out, 's');
    }
    assert(out@ =~= duration_text(secs as nat, millis as nat));
    out
}

/// The batch size that an import uses where no argument sets one.
pub const DEFAULT_BATCH_SIZE: u8 = 150;

/// Whether `c` is an ASCII decimal digit.
pub open spec fn is_digit(c: char) -> bool {
    '0' <= c && c <= '9'
}

/// The value of a string of decimal digits.
pub open spec fn digits_value(s: Seq<char>) -> int
    decreases s.len(),
{
    if s.len() == 0 {
        0
    } else {
        digits_value(s.drop_last()) * 10 + (s.last() as int - '0' as int)
    }
}

/// The value of the digits `s`, with a sign, where it is a decimal `i32`.
pub open spec fn signed_value(negative: bool, s: Seq<char>) -> Option<i32> {
    let v = if negative {
        -digits_value(s)
    } else {
        digits_value(s)
    };
    if s.len() > 0 && (forall|i: int| 0 <= i < s.len() ==> is_digit(#[trigger] s[i])) && i32::MIN
        <= v <= i32::MAX {
        Some(v as i32)
    } else {
        None
    }
}

/// A decimal `i32`: an optional `+` or `-`, then one digit or more, and a
/// value in range.
pub open spec fn parse_i32(s: Seq<char>) -> Option<i32> {
    if s.len() > 0 && s[0] == '-' {
        signed_value(true, s.drop_first())
    } else if s.len() > 0 && s[0] == '+' {
        signed_value(false, s.drop_first())
    } else {
        signed_value(false, s)
    }
}

/// The flag that sets the batch size, with its `=`.
pub open spec fn batch_flag() -> Seq<char> {
    seq!['-', '-', 'b', 'a', 't', 'c', 'h', '_', 's', 'i', 'z', 'e', '=']
}

/// The text after the last `=` of `s`, which holds one.
pub open spec fn after_last_eq(s: Seq<char>) -> Seq<char>
    decreases s.len(),
{
    if s.len() == 0 || s.last() == '=' {
        Seq::empty()
    } else {
        after_last_eq(s.drop_last()).push(s.last())
    }
}

/// Whether `s` starts with the batch flag.
pub open spec fn is_batch_arg(s: Seq<char>) -> bool {
    s.len() >= batch_flag().len() && s.subrange(0, batch_flag().len() as int) == batch_flag()
}

/// The batch size that the arguments `args` ask for: the first of them that
/// starts with the batch flag decides, by the number after its last `=`; the
/// default stands where none does, or where that number is no `i32`.
pub open spec fn batch_size_of(args: Seq<Seq<char>>) -> i32
    decreases args.len(),
{
    if args.len() == 0 {
        DEFAULT_BATCH_SIZE as i32
    } else if is_batch_arg(args[0]) {
        match parse_i32(after_last_eq(args[0])) {
            Some(n) => n,
            None => DEFAULT_BATCH_SIZE as i32,
        }
    } else {
        batch_size_of(args.drop_first())
    }
}

/// Relies on str::starts_with: whether `prefix` is where `s` begins.
#[verifier::external_body]
fn starts_with(s: &str, prefix: &str) -> (r: bool)
    ensures
        r == (s@.len() >= prefix@.len() && s@.subrange(0, prefix@.len() as int) == prefix@),
{
    s.starts_with(prefix)
}

/// Relies on str::rsplit_once: the parts before and after the last `=`.
#[verifier::external_body]
fn rsplit_once_eq(s: &str) -> (r: Option<(&str, &str)>)
    ensures
        match r {
            Some((a, b)) => s@ == a@ + seq!['='] + b@ && !b@.contains('='),
            None => !s@.contains('='),
        },
{
    s.rsplit_once('=')
}

/// Relies on i32's FromStr: an optional sign, decimal digits, a value in range.
#[verifier::external_body]
fn parse_i32_str(s: &str) -> (r: Option<i32>)
    ensures
        r == parse_i32(s@),
{
    s.parse::<i32>().ok()
}

proof fn lemma_after_last_eq(a: Seq<char>, b: Seq<char>)
    requires
        !b.contains('='),
    ensures
        after_last_eq(a + seq!['='] + b) == b,
    decreases b.len(),
{
    let s = a + seq!['='] + b;
    if b.len() == 0 {
        assert(s.last() == '=');
    } else {
        assert(s.last() == b.last());
        assert(s.drop_last() =~= a + seq!['='] + b.drop_last());
        assert(!b.drop_last().contains('=')) by {
            if b.drop_last().contains('=') {
                let i = choose|i: int| 0 <= i < b.drop_last().len() && b.drop_last()[i] == '=';
                assert(b[i] == '=');
            }
        }
        assert(b.last() != '=') by {
            assert(b[b.len() - 1] == b.last());
        }
        lemma_after_last_eq(a, b.drop_last());
        assert(b.drop_last().push(b.last()) =~= b);
    }
}

/// The batch size that the command-line arguments `args` ask for.
pub fn get_batch_size(args: &Vec<String>) -> (r: i32)
    ensures
        r == batch_size_of(args@.map_values(|a: String| a@)),
{
    let ghost all = args@.map_values(|a: String| a@);
    assert(all.subrange(0, all.len() as int) =~= all);
    let mut i: usize = 0;
    while i < args.len()
        invariant
            i <= args@.len(),
            all == args@.map_values(|a: String| a@),
            batch_size_of(all) == batch_size_of(all.subrange(i as int, all.len() as int)),
        decreases args@.len() - i,
    {
        let arg = args[i].as_str();
        let ghost rest = all.subrange(i as int, all.len() as int);
        assert(rest[0] == arg@);
        if starts_with(arg, "--batch_size=") {
            proof {
                reveal_strlit("--batch_size=");
                assert("--batch_size="@ =~= batch_flag());
            }
            let size = match rsplit_once_eq(arg) {
                Some((a, b)) => {
                    proof {
                        lemma_after_last_eq(a@, b@);
                    }
                    match parse_i32_str(b) {
                        Some(n) => n,
                        None => DEFAULT_BATCH_SIZE as i32,
                    }
                },
                None => {
                    proof {
                        assert(arg@.subrange(0, 13)[12] == '=');
                        assert(arg@[12] == '=');
                    }
                    DEFAULT_BATCH_SIZE as i32
                },
            };
            return size;
        }
        proof {
            reveal_strlit("--batch_size=");
            assert("--batch_size="@ =~= batch_flag());
            assert(rest.drop_first() =~= all.subrange(i + 1, all.len() as int));
        }
        i = i + 1;
    }
    proof {
        assert(all.subrange(i as int, all.len() as int) =~= Seq::<Seq<char>>::empty());
    }
    DEFAULT_BATCH_SIZE as i32
}

} // verus!
