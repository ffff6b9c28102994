use vstd::prelude::*;

verus! {

/// Space byte.
pub const SP: u8 = 32;
/// Horizontal-tab byte.
pub const TAB: u8 = 9;
/// Colon byte.
pub const COLON: u8 = 58;

/// The byte sequences held by a vector of byte vectors, in order.
pub open spec fn views_of(v: Seq<Vec<u8>>) -> Seq<Seq<u8>> {
    v.map_values(|x: Vec<u8>| x@)
}

pub proof fn lemma_views_of_push(v: Seq<Vec<u8>>, x: Vec<u8>)
    ensures
        views_of(v.push(x)) =~= views_of(v).push(x@),
{
}

pub proof fn lemma_views_of_drop_first(v: Seq<Vec<u8>>)
    requires
        v.len() > 0,
    ensures
        views_of(v.drop_first()) =~= views_of(v).drop_first(),
{
}

/// A byte is a field delimiter: space or tab always, colon when `colon` is set.
pub open spec fn spec_is_delim(c: u8, colon: bool) -> bool {
    c == SP || c == TAB || (colon && c == COLON)
}

/// One step of the tokenizer: feed byte `c` into the state
/// (finished tokens, current partial token).
pub open spec fn spec_tok_step(
    acc: (Seq<Seq<u8>>, Seq<u8>),
    c: u8,
    colon: bool,
) -> (Seq<Seq<u8>>, Seq<u8>) {
    if spec_is_delim(c, colon) {
        if acc.1.len() > 0 {
            (acc.0.push(acc.1), Seq::empty())
        } else {
            acc
        }
    } else {
        (acc.0, acc.1.push(c))
    }
}

/// Tokenizer state after consuming all of `s`, byte by byte from the left.
pub open spec fn spec_tok_run(s: Seq<u8>, colon: bool) -> (Seq<Seq<u8>>, Seq<u8>)
    decreases s.len(),
{
    if s.len() == 0 {
        (Seq::empty(), Seq::empty())
    } else {
        spec_tok_step(spec_tok_run(s.drop_last(), colon), s.last(), colon)
    }
}

/// The non-empty tokens of `s` between delimiter runs, in order.
pub open spec fn spec_tokens(s: Seq<u8>, colon: bool) -> Seq<Seq<u8>> {
    let acc = spec_tok_run(s, colon);
    if acc.1.len() > 0 {
        acc.0.push(acc.1)
    } else {
        acc.0
    }
}

fn is_delim(c: u8, colon: bool) -> (r: bool)
    ensures
        r == spec_is_delim(c, colon),
{
    c == SP || c == TAB || (colon && c == COLON)
}

/// Split `s` into its non-empty tokens, delimiters being space, tab and,
/// when `colon` is set, colon; delimiter runs collapse.
pub fn tokenize(s: &[u8], colon: bool) -> (r: Vec<Vec<u8>>)
    ensures
        views_of(r@) == spec_tokens(s@, colon),
{
    let mut done: Vec<Vec<u8>> = Vec::new();
    let mut cur: Vec<u8> = Vec::new();
    let mut i: usize = 0;
    assert(views_of(done@) =~= spec_tok_run(s@.take(0), colon).0);
    while i < s.len()
        invariant
            0 <= i <= s@.len(),
            views_of(done@) == spec_tok_run(s@.take(i as int), colon).0,
            cur@ == spec_tok_run(s@.take(i as int), colon).1,
        decreases s@.len() - i,
    {
        let ghost prev = spec_tok_run(s@.take(i as int), colon);
        let c = s[i];
        proof {
            assert(s@.take(i + 1).drop_last() =~= s@.take(i as int));
            assert(s@.take(i + 1).last() == s@[i as int]);
        }
        if is_delim(c, colon) {
            if cur.len() > 0 {
                proof {
                    lemma_views_of_push(done@, cur);
                }
                done.push(cur);
                cur = Vec::new();
            }
        } else {
            cur.push(c);
        }
        i = i + 1;
    }
    assert(s@.take(s@.len() as int) =~= s@);
    if cur.len() > 0 {
        proof {
            lemma_views_of_push(done@, cur);
        }
        done.push(cur);
    }
    done
}


/// A byte is a decimal digit, or, when `radix` is 16, a hex digit in
/// either case.
pub open spec fn spec_digit_ok(c: u8, radix: u32) -> bool {
    (48 <= c <= 57 && (c - 48) < radix) || (radix == 16 && (97 <= c <= 102 || 65 <= c <= 70))
}

/// Numeric value of a digit byte.
pub open spec fn spec_digit_val(c: u8) -> int {
    if 48 <= c <= 57 {
        c - 48
    } else if 97 <= c <= 102 {
        c - 97 + 10
    } else if 65 <= c <= 70 {
        c - 65 + 10
    } else {
        0
    }
}

/// A token is a well-formed number: non-empty and all digits valid in `radix`.
pub open spec fn spec_valid_number(s: Seq<u8>, radix: u32) -> bool {
    s.len() > 0 && forall|i: int| 0 <= i < s.len() ==> spec_digit_ok(s[i], radix)
}

/// Value of a digit string read most-significant first.
pub open spec fn spec_digits_val(s: Seq<u8>, radix: u32) -> int
    decreases s.len(),
{
    if s.len() == 0 {
        0
    } else {
        spec_digits_val(s.drop_last(), radix) * radix + spec_digit_val(s.last())
    }
}

/// The number a token denotes in `radix`, within the 64-bit range;
/// `None` on an empty token, a bad digit, or a value out of range.
pub open spec fn spec_parse_u64(s: Seq<u8>, radix: u32) -> Option<u64> {
    if spec_valid_number(s, radix) && spec_digits_val(s, radix) <= u64::MAX {
        Some(spec_digits_val(s, radix) as u64)
    } else {
        None
    }
}

/// As `spec_parse_u64`, within the 32-bit range.
pub open spec fn spec_parse_u32(s: Seq<u8>, radix: u32) -> Option<u32> {
    if spec_valid_number(s, radix) && spec_digits_val(s, radix) <= u32::MAX {
        Some(spec_digits_val(s, radix) as u32)
    } else {
        None
    }
}

pub proof fn lemma_digits_val_nonneg(s: Seq<u8>, radix: u32)
    requires
        radix >= 1,
    ensures
        spec_digits_val(s, radix) >= 0,
    decreases s.len(),
{
    if s.len() > 0 {
        lemma_digits_val_nonneg(s.drop_last(), radix);
        assert(spec_digits_val(s.drop_last(), radix) * radix >= 0) by (nonlinear_arith)
            requires
                spec_digits_val(s.drop_last(), radix) >= 0,
                radix >= 1,
        ;
    }
}

/// A digit string's value only grows as digits are appended.
pub proof fn lemma_digits_val_prefix_le(s: Seq<u8>, radix: u32, j: int)
    requires
        radix >= 1,
        0 <= j <= s.len(),
    ensures
        spec_digits_val(s.take(j), radix) <= spec_digits_val(s, radix),
    decreases s.len() - j,
{
    if j < s.len() {
        let t = s.take(j + 1);
        assert(t.drop_last() =~= s.take(j));
        lemma_digits_val_nonneg(s.take(j), radix);
        assert(spec_digits_val(s.take(j), radix) * radix >= spec_digits_val(s.take(j), radix))
            by (nonlinear_arith)
            requires
                spec_digits_val(s.take(j), radix) >= 0,
                radix >= 1,
        ;
        assert(spec_digits_val(t, radix) >= spec_digits_val(s.take(j), radix));
        lemma_digits_val_prefix_le(s, radix, j + 1);
    } else {
        assert(s.take(j) =~= s);
    }
}

/// Parse a whole token as an unsigned 64-bit number in `radix`
/// (10 or 16); strict: any other shape yields `None`.
pub fn parse_u64(s: &[u8], radix: u32) -> (r: Option<u64>)
    requires
        radix == 10 || radix == 16,
    ensures
        r == spec_parse_u64(s@, radix),
{
    if s.len() == 0 {
        return None;
    }
    let mut val: u64 = 0;
    let mut i: usize = 0;
    while i < s.len()
        invariant
            radix == 10 || radix == 16,
            0 <= i <= s@.len(),
            s@.len() > 0,
            forall|k: int| 0 <= k < i ==> spec_digit_ok(s@[k], radix),
            val == spec_digits_val(s@.take(i as int), radix),
        decreases s@.len() - i,
    {
        let c = s[i];
        let d: u32 = if 48 <= c && c <= 57 {
            (c - 48) as u32
        } else if radix == 16 && 97 <= c && c <= 102 {
            (c - 97) as u32 + 10
        } else if radix == 16 && 65 <= c && c <= 70 {
            (c - 65) as u32 + 10
        } else {
            return None;
        };
        if d >= radix {
            return None;
        }
        assert(spec_digit_ok(s@[i as int], radix) && d == spec_digit_val(s@[i as int]));
        proof {
            assert(s@.take(i + 1).drop_last() =~= s@.take(i as int));
            assert(s@.take(i + 1).last() == s@[i as int]);
        }
        if val > (u64::MAX - d as u64) / radix as u64 {
            // The value read so far already overflows 64 bits once this
            // digit is attached, and appending digits never shrinks it.
            proof {
                vstd::arithmetic::div_mod::lemma_fundamental_div_mod(
                    (u64::MAX - d) as int,
                    radix as int,
                );
                assert(val * radix > u64::MAX - d) by (nonlinear_arith)
                    requires
                        radix >= 1,
                        val > ((u64::MAX - d) as int) / (radix as int),
                        (u64::MAX - d) as int == radix * (((u64::MAX - d) as int) / (radix as int))
                            + ((u64::MAX - d) as int) % (radix as int),
                        0 <= ((u64::MAX - d) as int) % (radix as int) < radix,
                ;
                assert(spec_digits_val(s@.take(i + 1), radix) > u64::MAX);
                lemma_digits_val_prefix_le(s@, radix, i + 1);
            }
            return None;
        }
        proof {
            vstd::arithmetic::div_mod::lemma_fundamental_div_mod(
                (u64::MAX - d) as int,
                radix as int,
            );
            assert(val * radix + d <= u64::MAX) by (nonlinear_arith)
                requires
                    radix >= 1,
                    0 <= val <= ((u64::MAX - d) as int) / (radix as int),
                    (u64::MAX - d) as int == radix * (((u64::MAX - d) as int) / (radix as int))
                        + ((u64::MAX - d) as int) % (radix as int),
                    0 <= ((u64::MAX - d) as int) % (radix as int) < radix,
                    0 <= d,
            ;
        }
        val = val * radix as u64 + d as u64;
        i = i + 1;
    }
    proof {
        assert(s@.take(s@.len() as int) =~= s@);
    }
    Some(val)
}

/// Parse a whole token as an unsigned 32-bit number in `radix`.
pub fn parse_u32(s: &[u8], radix: u32) -> (r: Option<u32>)
    requires
        radix == 10 || radix == 16,
    ensures
        r == spec_parse_u32(s@, radix),
{
    proof {
        if spec_valid_number(s@, radix) {
            lemma_digits_val_nonneg(s@, radix);
        }
    }
    match parse_u64(s, radix) {
        None => None,
        Some(v) => {
            if v <= 0xffff_ffff {
                Some(v as u32)
            } else {
                None
            }
        },
    }
}


/// Newline byte.
pub const NL: u8 = 10;

/// Line-splitter state after consuming all of `s` from the left:
/// finished lines and the current unterminated line.
pub open spec fn spec_lines_run(s: Seq<u8>) -> (Seq<Seq<u8>>, Seq<u8>)
    decreases s.len(),
{
    if s.len() == 0 {
        (Seq::empty(), Seq::empty())
    } else {
        let acc = spec_lines_run(s.drop_last());
        if s.last() == NL {
            (acc.0.push(acc.1), Seq::empty())
        } else {
            (acc.0, acc.1.push(s.last()))
        }
    }
}

/// The lines of `s`: newline-separated, a trailing newline closing the
/// last line rather than opening an empty one.
pub open spec fn spec_lines(s: Seq<u8>) -> Seq<Seq<u8>> {
    let acc = spec_lines_run(s);
    if acc.1.len() > 0 {
        acc.0.push(acc.1)
    } else {
        acc.0
    }
}

/// Split `s` into lines.
pub fn split_lines(s: &[u8]) -> (r: Vec<Vec<u8>>)
    ensures
        views_of(r@) == spec_lines(s@),
{
    let mut done: Vec<Vec<u8>> = Vec::new();
    let mut cur: Vec<u8> = Vec::new();
    let mut i: usize = 0;
    assert(views_of(done@) =~= spec_lines_run(s@.take(0)).0);
    while i < s.len()
        invariant
            0 <= i <= s@.len(),
            views_of(done@) == spec_lines_run(s@.take(i as int)).0,
            cur@ == spec_lines_run(s@.take(i as int)).1,
        decreases s@.len() - i,
    {
        let c = s[i];
        proof {
            assert(s@.take(i + 1).drop_last() =~= s@.take(i as int));
            assert(s@.take(i + 1).last() == s@[i as int]);
        }
        if c == NL {
            proof {
                lemma_views_of_push(done@, cur);
            }
            done.push(cur);
            cur = Vec::new();
        } else {
            cur.push(c);
        }
        i = i + 1;
    }
    assert(s@.take(s@.len() as int) =~= s@);
    if cur.len() > 0 {
        proof {
            lemma_views_of_push(done@, cur);
        }
        done.push(cur);
    }
    done
}

/// Field-splitter state on byte `d`, keeping empty fields.
pub open spec fn spec_split_run(s: Seq<u8>, d: u8) -> (Seq<Seq<u8>>, Seq<u8>)
    decreases s.len(),
{
    if s.len() == 0 {
        (Seq::empty(), Seq::empty())
    } else {
        let acc = spec_split_run(s.drop_last(), d);
        if s.last() == d {
            (acc.0.push(acc.1), Seq::empty())
        } else {
            (acc.0, acc.1.push(s.last()))
        }
    }
}

/// Split `s` on every occurrence of byte `d`, keeping empty fields;
/// never empty as a whole.
pub open spec fn spec_split(s: Seq<u8>, d: u8) -> Seq<Seq<u8>> {
    let acc = spec_split_run(s, d);
    acc.0.push(acc.1)
}

/// Split `s` on byte `d`, keeping empty fields.
pub fn split_byte(s: &[u8], d: u8) -> (r: Vec<Vec<u8>>)
    ensures
        views_of(r@) == spec_split(s@, d),
        r@.len() > 0,
{
    let mut done: Vec<Vec<u8>> = Vec::new();
    let mut cur: Vec<u8> = Vec::new();
    let mut i: usize = 0;
    assert(views_of(done@) =~= spec_split_run(s@.take(0), d).0);
    while i < s.len()
        invariant
            0 <= i <= s@.len(),
            views_of(done@) == spec_split_run(s@.take(i as int), d).0,
            cur@ == spec_split_run(s@.take(i as int), d).1,
        decreases s@.len() - i,
    {
        let c = s[i];
        proof {
            assert(s@.take(i + 1).drop_last() =~= s@.take(i as int));
            assert(s@.take(i + 1).last() == s@[i as int]);
        }
        if c == d {
            proof {
                lemma_views_of_push(done@, cur);
            }
            done.push(cur);
            cur = Vec::new();
        } else {
            cur.push(c);
        }
        i = i + 1;
    }
    assert(s@.take(s@.len() as int) =~= s@);
    proof {
        lemma_views_of_push(done@, cur);
    }
    done.push(cur);
    done
}

/// Whether two byte strings hold the same bytes.
pub fn bytes_eq(a: &[u8], b: &[u8]) -> (r: bool)
    ensures
        r == (a@ == b@),
{
    if a.len() != b.len() {
        assert(a@ != b@) by {
            assert(a@.len() != b@.len());
        }
        return false;
    }
    let mut i: usize = 0;
    while i < a.len()
        invariant
            0 <= i <= a@.len(),
            a@.len() == b@.len(),
            forall|k: int| 0 <= k < i ==> a@[k] == b@[k],
        decreases a@.len() - i,
    {
        if a[i] != b[i] {
            return false;
        }
        i = i + 1;
    }
    proof {
        assert(a@ =~= b@);
    }
    true
}

/// Whether `s` begins with `prefix`.
pub open spec fn spec_starts_with(s: Seq<u8>, prefix: Seq<u8>) -> bool {
    prefix.len() <= s.len() && s.take(prefix.len() as int) == prefix
}

pub fn starts_with(s: &[u8], prefix: &[u8]) -> (r: bool)
    ensures
        r == spec_starts_with(s@, prefix@),
{
    if prefix.len() > s.len() {
        return false;
    }
    let mut i: usize = 0;
    while i < prefix.len()
        invariant
            0 <= i <= prefix@.len() <= s@.len(),
            forall|k: int| 0 <= k < i ==> s@[k] == prefix@[k],
        decreases prefix@.len() - i,
    {
        if s[i] != prefix[i] {
            assert(s@.take(prefix@.len() as int)[i as int] != prefix@[i as int]);
            return false;
        }
        i = i + 1;
    }
    proof {
        assert(s@.take(prefix@.len() as int) =~= prefix@);
    }
    true
}

} // verus!
