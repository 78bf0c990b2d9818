//! Character-level text helpers: the normalizer applied to descriptions and
//! header titles, prefix tests, string equality, and decimal rendering for
//! the listing numbers.

use vstd::prelude::*;
use vstd::string::*;

verus! {

/// What `char::to_uppercase` yields for a character: its uppercase mapping,
/// one or more characters, a function of the character alone.
pub uninterp spec fn upper_of(c: char) -> Seq<char>;

/// Relies on std's `char::to_uppercase`: yields the uppercase mapping of the
/// character as one or more characters; the mapping depends on the character
/// alone.
#[verifier::external_body]
fn char_upper(c: char) -> (r: Vec<char>)
    ensures
        r@ == upper_of(c),
        r@.len() >= 1,
{
    c.to_uppercase().collect()
}

/// Relies on std's `String::push`: appends one character at the end of the
/// string.
#[verifier::external_body]
fn push_char(s: &mut String, c: char)
    ensures
        final(s)@ == old(s)@ + seq![c],
{
    s.push(c);
}

/// The string with every `'#'` removed.
pub open spec fn strip_hashes(s: Seq<char>) -> Seq<char>
    decreases s.len(),
{
    if s.len() == 0 {
        s
    } else if s[0] == '#' {
        strip_hashes(s.drop_first())
    } else {
        seq![s[0]] + strip_hashes(s.drop_first())
    }
}

/// The string with every leading space character removed; other whitespace
/// is left alone.
pub open spec fn strip_leading_spaces(s: Seq<char>) -> Seq<char>
    decreases s.len(),
{
    if s.len() > 0 && s[0] == ' ' {
        strip_leading_spaces(s.drop_first())
    } else {
        s
    }
}

/// The string with its first character replaced by that character's
/// uppercase mapping; an empty string passes through unchanged.
pub open spec fn capitalized(s: Seq<char>) -> Seq<char> {
    if s.len() == 0 {
        s
    } else {
        upper_of(s[0]) + s.drop_first()
    }
}

/// The normalizer applied to every description and header title: remove the
/// comment markers, trim leading spaces, uppercase the first letter.
pub open spec fn normalized(s: Seq<char>) -> Seq<char> {
    capitalized(strip_leading_spaces(strip_hashes(s)))
}

proof fn lemma_strip_hashes_no_hash(s: Seq<char>)
    ensures
        forall|i: int| 0 <= i < strip_hashes(s).len() ==> strip_hashes(s)[i] != '#',
    decreases s.len(),
{
    if s.len() > 0 {
        lemma_strip_hashes_no_hash(s.drop_first());
        if s[0] != '#' {
            assert forall|i: int| 0 <= i < strip_hashes(s).len() implies strip_hashes(s)[i]
                != '#' by {
                if i > 0 {
                    assert(strip_hashes(s)[i] == strip_hashes(s.drop_first())[i - 1]);
                }
            }
        }
    }
}

proof fn lemma_strip_spaces_head(s: Seq<char>)
    ensures
        strip_leading_spaces(s).len() > 0 ==> strip_leading_spaces(s)[0] != ' ',
    decreases s.len(),
{
    if s.len() > 0 && s[0] == ' ' {
        lemma_strip_spaces_head(s.drop_first());
    }
}

proof fn lemma_strip_spaces_suffix(s: Seq<char>)
    ensures
        exists|k: int| 0 <= k <= s.len() && strip_leading_spaces(s) == s.subrange(k, s.len() as int),
    decreases s.len(),
{
    if s.len() > 0 && s[0] == ' ' {
        lemma_strip_spaces_suffix(s.drop_first());
        let k0 = choose|k: int| 0 <= k <= s.drop_first().len() && strip_leading_spaces(s.drop_first())
            == s.drop_first().subrange(k, s.drop_first().len() as int);
        assert(s.drop_first().subrange(k0, s.drop_first().len() as int)
            =~= s.subrange(k0 + 1, s.len() as int));
    } else {
        assert(strip_leading_spaces(s) == s.subrange(0, s.len() as int)) by {
            assert(s =~= s.subrange(0, s.len() as int));
        }
    }
}

/// Law: after normalization, no `'#'` survives among the kept characters, no
/// leading space survives, and the first kept character is replaced by
/// exactly its uppercase mapping.  `m` below is the string after the two
/// stripping steps; the final result prepends `upper_of(m[0])` to the rest.
pub proof fn lemma_normalized_shape(s: Seq<char>)
    ensures
        forall|i: int| 0 <= i < strip_leading_spaces(strip_hashes(s)).len()
            ==> strip_leading_spaces(strip_hashes(s))[i] != '#',
        strip_leading_spaces(strip_hashes(s)).len() > 0
            ==> strip_leading_spaces(strip_hashes(s))[0] != ' ',
        normalized(s) == if strip_leading_spaces(strip_hashes(s)).len() == 0 {
            strip_leading_spaces(strip_hashes(s))
        } else {
            upper_of(strip_leading_spaces(strip_hashes(s))[0])
                + strip_leading_spaces(strip_hashes(s)).drop_first()
        },
{
    let h = strip_hashes(s);
    let m = strip_leading_spaces(h);
    lemma_strip_hashes_no_hash(s);
    lemma_strip_spaces_head(h);
    lemma_strip_spaces_suffix(h);
    let k = choose|k: int| 0 <= k <= h.len() && m == h.subrange(k, h.len() as int);
    assert(forall|i: int| 0 <= i < m.len() ==> m[i] == h[k + i]);
}

/// True when `p` is a prefix of `s`.
pub open spec fn starts_with(s: Seq<char>, p: Seq<char>) -> bool {
    p.len() <= s.len() && s.subrange(0, p.len() as int) == p
}

/// Character-by-character prefix test on string slices.
pub fn str_starts_with(s: &str, p: &str) -> (r: bool)
    ensures
        r == starts_with(s@, p@),
{
    let sl: usize = s.unicode_len();
    let pl: usize = p.unicode_len();
    if pl > sl {
        return false;
    }
    let mut i: usize = 0;
    while i < pl
        invariant
            i <= pl,
            pl <= sl,
            pl == p@.len(),
            sl == s@.len(),
            forall|t: int| 0 <= t < i ==> s@[t] == p@[t],
        decreases pl - i,
    {
        if s.get_char(i) != p.get_char(i) {
            assert(s@.subrange(0, pl as int)[i as int] == s@[i as int]);
            return false;
        }
        i += 1;
    }
    assert(s@.subrange(0, pl as int) =~= p@);
    true
}

/// Character-by-character equality test on string slices.
pub fn str_eq(a: &str, b: &str) -> (r: bool)
    ensures
        r == (a@ == b@),
{
    if a.unicode_len() != b.unicode_len() {
        return false;
    }
    let r = str_starts_with(a, b);
    proof {
        assert(a@.subrange(0, a@.len() as int) =~= a@);
    }
    r
}

/// The normalizer: remove every `'#'`, strip leading spaces, uppercase the
/// first remaining character.  Empty results stay empty; a non-empty
/// stripped string yields a non-empty result.
pub fn normalize(s: &str) -> (r: String)
    ensures
        r@ == normalized(s@),
        strip_leading_spaces(strip_hashes(s@)).len() > 0 ==> r@.len() > 0,
{
    let n: usize = s.unicode_len();
    let mut kept: Vec<char> = Vec::new();
    let mut i: usize = 0;
    proof {
        assert(s@.skip(0) =~= s@);
        assert(kept@ + strip_hashes(s@) =~= strip_hashes(s@));
    }
    while i < n
        invariant
            i <= n,
            n == s@.len(),
            strip_hashes(s@) == kept@ + strip_hashes(s@.skip(i as int)),
        decreases n - i,
    {
        let c = s.get_char(i);
        let ghost kept0 = kept@;
        proof {
            assert(s@.skip(i as int).drop_first() =~= s@.skip(i as int + 1));
            assert(s@.skip(i as int)[0] == s@[i as int]);
        }
        if c != '#' {
            kept.push(c);
            proof {
                assert(kept@ + strip_hashes(s@.skip(i as int + 1))
                    =~= kept0 + (seq![c] + strip_hashes(s@.skip(i as int + 1))));
            }
        }
        i += 1;
    }
    proof {
        assert(s@.skip(n as int).len() == 0);
        assert(kept@ + strip_hashes(s@.skip(n as int)) =~= kept@);
        assert(kept@.skip(0) =~= kept@);
    }
    let mut j: usize = 0;
    while j < kept.len() && kept[j] == ' '
        invariant
            j <= kept@.len(),
            strip_leading_spaces(kept@) == strip_leading_spaces(kept@.skip(j as int)),
        decreases kept@.len() - j,
    {
        proof {
            assert(kept@.skip(j as int).drop_first() =~= kept@.skip(j as int + 1));
            assert(kept@.skip(j as int)[0] == kept@[j as int]);
        }
        j += 1;
    }
    let mut r = String::new();
    if j == kept.len() {
        proof {
            assert(kept@.skip(j as int) =~= Seq::<char>::empty());
        }
        return r;
    }
    proof {
        assert(kept@.skip(j as int)[0] == kept@[j as int]);
        assert(strip_leading_spaces(kept@.skip(j as int)) == kept@.skip(j as int));
    }
    let ups = char_upper(kept[j]);
    let mut t: usize = 0;
    while t < ups.len()
        invariant
            t <= ups@.len(),
            ups@ == upper_of(kept@[j as int]),
            j < kept@.len(),
            r@ == ups@.subrange(0, t as int),
        decreases ups@.len() - t,
    {
        push_char(&mut r, ups[t]);
        proof {
            assert(ups@.subrange(0, t as int) + seq![ups@[t as int]]
                =~= ups@.subrange(0, t as int + 1));
        }
        t += 1;
    }
    proof {
        assert(ups@.subrange(0, ups@.len() as int) =~= ups@);
        assert(ups@ + kept@.subrange(j as int + 1, j as int + 1) =~= ups@);
    }
    let mut u: usize = j + 1;
    while u < kept.len()
        invariant
            j < u <= kept@.len(),
            ups@ == upper_of(kept@[j as int]),
            r@ == ups@ + kept@.subrange(j as int + 1, u as int),
        decreases kept@.len() - u,
    {
        push_char(&mut r, kept[u]);
        proof {
            assert((ups@ + kept@.subrange(j as int + 1, u as int)) + seq![kept@[u as int]]
                =~= ups@ + kept@.subrange(j as int + 1, u as int + 1));
        }
        u += 1;
    }
    proof {
        assert(kept@.subrange(j as int + 1, kept@.len() as int) =~= kept@.skip(j as int).drop_first());
        assert(r@ == capitalized(kept@.skip(j as int)));
    }
    r
}

/// A line that introduces a keybinding: it starts with one of the literal
/// modifier names.  This is a plain prefix match, not a token match: a line
/// such as `superfluous ...` also matches, a heuristic limitation that is
/// kept on purpose.
pub open spec fn is_binding_line(l: Seq<char>) -> bool {
    ||| starts_with(l, "super"@)
    ||| starts_with(l, "alt"@)
    ||| starts_with(l, "ctrl"@)
    ||| starts_with(l, "shift"@)
}

/// A comment line: it starts with the comment marker.
pub open spec fn is_comment_line(l: Seq<char>) -> bool {
    starts_with(l, "#"@)
}

/// Tests whether a line introduces a keybinding.
pub fn check_binding_line(s: &str) -> (r: bool)
    ensures
        r == is_binding_line(s@),
{
    str_starts_with(s, "super") || str_starts_with(s, "alt") || str_starts_with(s, "ctrl")
        || str_starts_with(s, "shift")
}

/// Tests whether a line is a comment line.
pub fn check_comment_line(s: &str) -> (r: bool)
    ensures
        r == is_comment_line(s@),
{
    str_starts_with(s, "#")
}

/// The decimal digit character for a value below ten.
pub open spec fn decimal_digit(d: nat) -> char {
    if d == 0 {
        '0'
    } else if d == 1 {
        '1'
    } else if d == 2 {
        '2'
    } else if d == 3 {
        '3'
    } else if d == 4 {
        '4'
    } else if d == 5 {
        '5'
    } else if d == 6 {
        '6'
    } else if d == 7 {
        '7'
    } else if d == 8 {
        '8'
    } else {
        '9'
    }
}

/// The usual decimal rendering of a number, most significant digit first,
/// with no leading zeros except for the number zero itself.
pub open spec fn decimal(n: nat) -> Seq<char>
    decreases n,
{
    if n < 10 {
        seq![decimal_digit(n)]
    } else {
        decimal((n / 10) as nat) + seq![decimal_digit(n % 10)]
    }
}

fn digit_str(d: usize) -> (r: &'static str)
    requires
        d < 10,
    ensures
        r@ == seq![decimal_digit(d as nat)],
{
    proof {
        reveal_strlit("0");
        reveal_strlit("1");
        reveal_strlit("2");
        reveal_strlit("3");
        reveal_strlit("4");
        reveal_strlit("5");
        reveal_strlit("6");
        reveal_strlit("7");
        reveal_strlit("8");
        reveal_strlit("9");
    }
    let r: &'static str = match d {
        0 => "0",
        1 => "1",
        2 => "2",
        3 => "3",
        4 => "4",
        5 => "5",
        6 => "6",
        7 => "7",
        8 => "8",
        _ => "9",
    };
    proof {
        assert(r@ =~= seq![decimal_digit(d as nat)]);
    }
    r
}

/// Renders a number in decimal.
pub fn decimal_string(n: usize) -> (r: String)
    ensures
        r@ == decimal(n as nat),
    decreases n,
{
    if n < 10 {
        String::from_str(digit_str(n))
    } else {
        let mut r = decimal_string(n / 10);
        r.append(digit_str(n % 10));
        r
    }
}

} // verus!
