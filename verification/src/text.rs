//! Character-level text handling for the odometry's input files:
//! whitespace tokenisation, splitting on a separator, substring tests,
//! bracket removal and decimal parsing of unsigned integers.
use vstd::prelude::*;

verus! {

/// Unicode `White_Space` characters (what `char::is_whitespace` accepts).
pub open spec fn is_white_space(c: char) -> bool {
    ||| '\u{9}' <= c <= '\u{d}'
    ||| c == ' '
    ||| c == '\u{85}'
    ||| c == '\u{a0}'
    ||| c == '\u{1680}'
    ||| '\u{2000}' <= c <= '\u{200a}'
    ||| c == '\u{2028}'
    ||| c == '\u{2029}'
    ||| c == '\u{202f}'
    ||| c == '\u{205f}'
    ||| c == '\u{3000}'
}

/// Whether `c` is Unicode white space.
pub fn white_space(c: char) -> (r: bool)
    ensures
        r == is_white_space(c),
{
    ('\u{9}' <= c && c <= '\u{d}') || c == ' ' || c == '\u{85}' || c == '\u{a0}' || c == '\u{1680}'
        || ('\u{2000}' <= c && c <= '\u{200a}') || c == '\u{2028}' || c == '\u{2029}' || c
        == '\u{202f}' || c == '\u{205f}' || c == '\u{3000}'
}

/// The maximal runs of non-white-space characters of `s`, in order (what
/// `str::split_whitespace` yields).
pub open spec fn whitespace_tokens(s: Seq<char>) -> Seq<Seq<char>>
    decreases s.len(),
{
    if s.len() == 0 {
        Seq::empty()
    } else {
        let prev = whitespace_tokens(s.drop_last());
        let c = s.last();
        if is_white_space(c) {
            prev
        } else if s.len() == 1 || is_white_space(s[s.len() - 2]) {
            prev.push(seq![c])
        } else {
            prev.update(prev.len() - 1, prev.last().push(c))
        }
    }
}

/// The pieces of `s` between occurrences of `sep`, empty pieces included
/// (what `str::split` with a character yields).
pub open spec fn split_on(s: Seq<char>, sep: char) -> Seq<Seq<char>>
    decreases s.len(),
{
    if s.len() == 0 {
        seq![Seq::empty()]
    } else {
        let prev = split_on(s.drop_last(), sep);
        let c = s.last();
        if c == sep {
            prev.push(Seq::empty())
        } else {
            prev.update(prev.len() - 1, prev.last().push(c))
        }
    }
}

/// `pat` occurs in `s` as a contiguous piece.
pub open spec fn contains_piece(s: Seq<char>, pat: Seq<char>) -> bool {
    exists|i: int| 0 <= i && i + pat.len() <= s.len() && #[trigger] s.subrange(i, i + pat.len()) == pat
}

/// `s` without its square brackets.
pub open spec fn without_brackets(s: Seq<char>) -> Seq<char> {
    s.filter(|c: char| c != '[' && c != ']')
}

/// Value of a string of decimal digits.
pub open spec fn decimal_value(s: Seq<char>) -> nat
    decreases s.len(),
{
    if s.len() == 0 {
        0
    } else {
        decimal_value(s.drop_last()) * 10 + ((s.last() as u32 - '0' as u32) as nat)
    }
}

/// All characters are ASCII digits.
pub open spec fn all_digits(s: Seq<char>) -> bool {
    forall|i: int| 0 <= i < s.len() ==> '0' <= #[trigger] s[i] <= '9'
}

/// What `str::parse` gives for an unsigned integer type whose largest value
/// is `max`: an optional `+` followed by at least one digit and nothing else,
/// with a value that fits.
pub open spec fn parse_unsigned(s: Seq<char>, max: nat) -> Option<nat> {
    let digits = if s.len() > 0 && s[0] == '+' { s.drop_first() } else { s };
    if digits.len() == 0 || !all_digits(digits) || decimal_value(digits) > max {
        None
    } else {
        Some(decimal_value(digits))
    }
}

/// The characters of `s`.
pub fn str_chars(s: &str) -> (r: Vec<char>)
    ensures
        r@ == s@,
{
    let mut r: Vec<char> = Vec::new();
    for c in it: s.chars()
        invariant
            r@ == it.seq().take(it.index() as int),
    {
        r.push(c);
    }
    r
}

/// The deep view of a vector of character vectors.
pub open spec fn pieces_view(v: Seq<Vec<char>>) -> Seq<Seq<char>> {
    v.map_values(|p: Vec<char>| p@)
}

/// A non-white-space character ends a token that is the last one so far.
proof fn lemma_tokens_nonempty(s: Seq<char>)
    requires
        s.len() > 0,
        !is_white_space(s.last()),
    ensures
        whitespace_tokens(s).len() > 0,
        whitespace_tokens(s).last().len() > 0,
    decreases s.len(),
{
    let p = whitespace_tokens(s.drop_last());
    if s.len() > 1 && !is_white_space(s[s.len() - 2]) {
        assert(s.drop_last().last() == s[s.len() - 2]);
        lemma_tokens_nonempty(s.drop_last());
    }
}

/// Splits `s` into its maximal runs of non-white-space characters.
pub fn split_whitespace(s: &Vec<char>) -> (r: Vec<Vec<char>>)
    ensures
        pieces_view(r@) == whitespace_tokens(s@),
{
    let mut r: Vec<Vec<char>> = Vec::new();
    let mut cur: Vec<char> = Vec::new();
    let mut i: usize = 0;
    while i < s.len()
        invariant
            i <= s@.len(),
            whitespace_tokens(s@.take(i as int)) == if cur@.len() == 0 {
                pieces_view(r@)
            } else {
                pieces_view(r@).push(cur@)
            },
            cur@.len() > 0 <==> (i > 0 && !is_white_space(s@[i - 1])),
        decreases s@.len() - i,
    {
        let c = s[i];
        let ghost pre = s@.take(i as int);
        proof {
            assert(s@.take(i + 1).drop_last() =~= pre);
            assert(s@.take(i + 1).last() == c);
            if i > 0 {
                assert(s@.take(i + 1)[i - 1] == s@[i - 1]);
            }
        }
        if white_space(c) {
            if cur.len() > 0 {
                let ghost old_r = r@;
                let done = cur;
                r.push(done);
                cur = Vec::new();
                proof {
                    assert(pieces_view(r@) =~= pieces_view(old_r).push(done@));
                }
            }
        } else {
            let ghost before = cur@;
            cur.push(c);
            proof {
                if before.len() > 0 {
                    let pv = pieces_view(r@);
                    assert(whitespace_tokens(s@.take(i + 1)) =~= pv.push(before).update(
                        pv.len() as int,
                        before.push(c),
                    ));
                    assert(pv.push(before).update(pv.len() as int, before.push(c)) =~= pv.push(cur@));
                } else {
                    assert(cur@ =~= seq![c]);
                }
            }
        }
        i = i + 1;
    }
    proof {
        assert(s@.take(s@.len() as int) =~= s@);
    }
    if cur.len() > 0 {
        let ghost old_r = r@;
        let ghost last = cur@;
        r.push(cur);
        proof {
            assert(pieces_view(r@) =~= pieces_view(old_r).push(last));
        }
    }
    r
}


/// Splits `s` at every occurrence of `sep`, keeping empty pieces.
pub fn split_on_char(s: &Vec<char>, sep: char) -> (r: Vec<Vec<char>>)
    ensures
        pieces_view(r@) == split_on(s@, sep),
{
    let mut r: Vec<Vec<char>> = Vec::new();
    let mut cur: Vec<char> = Vec::new();
    let mut i: usize = 0;
    proof {
        assert(s@.take(0) =~= Seq::<char>::empty());
        assert(pieces_view(r@).push(cur@) =~= seq![Seq::<char>::empty()]);
    }
    while i < s.len()
        invariant
            i <= s@.len(),
            split_on(s@.take(i as int), sep) == pieces_view(r@).push(cur@),
        decreases s@.len() - i,
    {
        let c = s[i];
        proof {
            assert(s@.take(i + 1).drop_last() =~= s@.take(i as int));
            assert(s@.take(i + 1).last() == c);
        }
        let ghost old_r = r@;
        let ghost old_cur = cur@;
        if c == sep {
            let done = cur;
            r.push(done);
            cur = Vec::new();
            proof {
                assert(pieces_view(r@) =~= pieces_view(old_r).push(old_cur));
                assert(pieces_view(r@).push(cur@) =~= pieces_view(old_r).push(old_cur).push(
                    Seq::empty(),
                ));
            }
        } else {
            cur.push(c);
            proof {
                let pv = pieces_view(old_r);
                assert(pv.push(old_cur).update(pv.len() as int, old_cur.push(c)) =~= pv.push(cur@));
            }
        }
        i = i + 1;
    }
    proof {
        assert(s@.take(s@.len() as int) =~= s@);
    }
    let ghost old_r = r@;
    let ghost last = cur@;
    r.push(cur);
    proof {
        assert(pieces_view(r@) =~= pieces_view(old_r).push(last));
    }
    r
}

/// Whether `pat` occurs in `s` as a contiguous piece.
pub fn contains_chars(s: &Vec<char>, pat: &Vec<char>) -> (r: bool)
    ensures
        r == contains_piece(s@, pat@),
{
    if pat.len() > s.len() {
        return false;
    }
    if pat.len() == 0 {
        proof {
            assert(s@.subrange(0, 0 + pat@.len() as int) =~= pat@);
        }
        return true;
    }
    let n = s.len();
    let last_start = n - pat.len();
    let mut i: usize = 0;
    while i <= last_start
        invariant
            n == s@.len(),
            last_start == s@.len() - pat@.len(),
            pat@.len() > 0,
            i <= last_start + 1,
            forall|k: int| 0 <= k < i ==> #[trigger] s@.subrange(k, k + pat@.len()) != pat@,
        decreases last_start + 1 - i,
    {
        let mut j: usize = 0;
        let mut same = true;
        while j < pat.len()
            invariant
                i <= last_start,
                n == s@.len(),
                last_start == s@.len() - pat@.len(),
                pat@.len() <= s@.len(),
                j <= pat@.len(),
                same == forall|m: int| 0 <= m < j ==> s@[i + m] == pat@[m],
            decreases pat@.len() - j,
        {
            if s[i + j] != pat[j] {
                same = false;
            }
            j = j + 1;
        }
        if same {
            proof {
                assert(s@.subrange(i as int, i + pat@.len()) =~= pat@);
            }
            return true;
        }
        proof {
            let m = choose|m: int| 0 <= m < pat@.len() && s@[i + m] != pat@[m];
            assert(s@.subrange(i as int, i + pat@.len())[m] != pat@[m]);
        }
        i = i + 1;
    }
    proof {
        if contains_piece(s@, pat@) {
            let k = choose|k: int|
                0 <= k && k + pat@.len() <= s@.len() && #[trigger] s@.subrange(k, k + pat@.len()) == pat@;
            assert(k < i);
        }
    }
    false
}

/// `s` without its square brackets.
pub fn remove_brackets(s: &Vec<char>) -> (r: Vec<char>)
    ensures
        r@ == without_brackets(s@),
{
    let ghost pred = |c: char| c != '[' && c != ']';
    let mut r: Vec<char> = Vec::new();
    let mut i: usize = 0;
    proof {
        assert(s@.take(0).filter(pred) =~= Seq::<char>::empty()) by {
            reveal(Seq::filter);
        }
    }
    while i < s.len()
        invariant
            i <= s@.len(),
            pred == (|c: char| c != '[' && c != ']'),
            r@ == s@.take(i as int).filter(pred),
        decreases s@.len() - i,
    {
        let c = s[i];
        proof {
            assert(s@.take(i + 1) =~= s@.take(i as int).push(c));
            s@.take(i as int).lemma_filter_push(c, pred);
        }
        if c != '[' && c != ']' {
            r.push(c);
        }
        i = i + 1;
    }
    proof {
        assert(s@.take(s@.len() as int) =~= s@);
    }
    r
}

/// Parses an unsigned decimal the way `str::parse::<u64>` does.
pub fn parse_u64(s: &Vec<char>) -> (r: Option<u64>)
    ensures
        match r {
            Some(v) => parse_unsigned(s@, u64::MAX as nat) == Some(v as nat),
            None => parse_unsigned(s@, u64::MAX as nat) is None,
        },
{
    let start: usize = if s.len() > 0 && s[0] == '+' { 1 } else { 0 };
    let ghost digits = if s@.len() > 0 && s@[0] == '+' { s@.drop_first() } else { s@ };
    proof {
        assert(digits =~= s@.subrange(start as int, s@.len() as int));
    }
    if start == s.len() {
        proof {
            assert(digits.len() == 0);
        }
        return None;
    }
    let mut acc: Option<u64> = Some(0);
    let mut i: usize = start;
    proof {
        assert(digits.take(0) =~= Seq::<char>::empty());
    }
    while i < s.len()
        invariant
            start <= i <= s@.len(),
            digits == s@.subrange(start as int, s@.len() as int),
            digits == (if s@.len() > 0 && s@[0] == '+' { s@.drop_first() } else { s@ }),
            all_digits(digits.take(i - start)),
            match acc {
                Some(a) => a as nat == decimal_value(digits.take(i - start)),
                None => decimal_value(digits.take(i - start)) > u64::MAX,
            },
        decreases s@.len() - i,
    {
        let c = s[i];
        let ghost k = i - start;
        proof {
            assert(digits[k as int] == c);
            assert(digits.take(k + 1).drop_last() =~= digits.take(k as int));
            assert(digits.take(k + 1).last() == c);
        }
        if c < '0' || c > '9' {
            proof {
                assert(!('0' <= digits[k as int] <= '9'));
                assert(!all_digits(digits));
                assert(parse_unsigned(s@, u64::MAX as nat) is None);
            }
            return None;
        }
        let d = (c as u32 - '0' as u32) as u64;
        acc = match acc {
            Some(a) => match a.checked_mul(10) {
                Some(t) => t.checked_add(d),
                None => None,
            },
            None => None,
        };
        proof {
            assert forall|m: int| 0 <= m < k + 1 implies '0' <= #[trigger] digits.take(k + 1)[m] <= '9' by {
                if m < k {
                    assert(digits.take(k + 1)[m] == digits.take(k as int)[m]);
                }
            }
        }
        i = i + 1;
    }
    proof {
        assert(digits.take(digits.len() as int) =~= digits);
    }
    acc
}

/// Parses an unsigned decimal the way `str::parse::<u32>` does.
pub fn parse_u32(s: &Vec<char>) -> (r: Option<u32>)
    ensures
        match r {
            Some(v) => parse_unsigned(s@, u32::MAX as nat) == Some(v as nat),
            None => parse_unsigned(s@, u32::MAX as nat) is None,
        },
{
    match parse_u64(s) {
        Some(v) => {
            if v <= u32::MAX as u64 {
                Some(v as u32)
            } else {
                None
            }
        },
        None => {
            proof {
                let digits = if s@.len() > 0 && s@[0] == '+' { s@.drop_first() } else { s@ };
                if digits.len() > 0 && all_digits(digits) && decimal_value(digits) <= u32::MAX {
                    assert(decimal_value(digits) <= u64::MAX);
                }
            }
            None
        },
    }
}

} // verus!

verus! {

/// The pieces joined back together with `sep` between neighbours.
pub open spec fn join_with(pieces: Seq<Seq<char>>, sep: char) -> Seq<char>
    decreases pieces.len(),
{
    if pieces.len() == 0 {
        Seq::empty()
    } else if pieces.len() == 1 {
        pieces[0]
    } else {
        join_with(pieces.drop_last(), sep).push(sep) + pieces.last()
    }
}

/// Law: splitting on a separator loses nothing: there is always at least
/// one piece, no piece holds the separator, and joining the pieces with
/// the separator gives back the text.
pub proof fn law_split_join(s: Seq<char>, sep: char)
    ensures
        split_on(s, sep).len() >= 1,
        forall|k: int, m: int|
            0 <= k < split_on(s, sep).len() && 0 <= m < split_on(s, sep)[k].len() ==> #[trigger] split_on(
                s,
                sep,
            )[k][m] != sep,
        join_with(split_on(s, sep), sep) == s,
    decreases s.len(),
{
    if s.len() == 0 {
        assert(join_with(split_on(s, sep), sep) =~= s);
    } else {
        let d = s.drop_last();
        law_split_join(d, sep);
        let p = split_on(d, sep);
        let c = s.last();
        if c == sep {
            let q = p.push(Seq::<char>::empty());
            assert(q.drop_last() =~= p);
            assert(join_with(q, sep) =~= join_with(p, sep).push(sep));
            assert(d.push(sep) =~= s);
            assert forall|k: int, m: int| 0 <= k < q.len() && 0 <= m < q[k].len() implies #[trigger] q[k][m]
                != sep by {
                assert(k < p.len());
                assert(q[k] == p[k]);
            }
        } else {
            let last = p.len() - 1;
            let q = p.update(last, p.last().push(c));
            assert(q.drop_last() =~= p.drop_last());
            if p.len() == 1 {
                assert(join_with(q, sep) =~= join_with(p, sep).push(c));
            } else {
                assert(join_with(q, sep) == join_with(p.drop_last(), sep).push(sep) + p.last().push(c));
                assert(join_with(p.drop_last(), sep).push(sep) + p.last().push(c) =~= (join_with(
                    p.drop_last(),
                    sep,
                ).push(sep) + p.last()).push(c));
            }
            assert(d.push(c) =~= s);
            assert forall|k: int, m: int| 0 <= k < q.len() && 0 <= m < q[k].len() implies #[trigger] q[k][m]
                != sep by {
                if k < last {
                    assert(q[k] == p[k]);
                } else if m < p.last().len() {
                    assert(q[k][m] == p[last][m]);
                }
            }
        }
    }
}


/// Law: white-space tokens are never empty and hold no white space.
pub proof fn law_tokens_clean(s: Seq<char>)
    ensures
        forall|k: int|
            0 <= k < whitespace_tokens(s).len() ==> #[trigger] whitespace_tokens(s)[k].len() > 0,
        forall|k: int, m: int|
            0 <= k < whitespace_tokens(s).len() && 0 <= m < whitespace_tokens(s)[k].len()
                ==> !is_white_space(#[trigger] whitespace_tokens(s)[k][m]),
    decreases s.len(),
{
    if s.len() > 0 {
        let d = s.drop_last();
        law_tokens_clean(d);
        let p = whitespace_tokens(d);
        let c = s.last();
        let t = whitespace_tokens(s);
        if is_white_space(c) {
        } else if s.len() == 1 || is_white_space(s[s.len() - 2]) {
            assert forall|k: int| 0 <= k < t.len() implies #[trigger] t[k].len() > 0 by {
                if k < p.len() {
                    assert(t[k] == p[k]);
                }
            }
            assert forall|k: int, m: int| 0 <= k < t.len() && 0 <= m < t[k].len() implies !is_white_space(
                #[trigger] t[k][m],
            ) by {
                if k < p.len() {
                    assert(t[k] == p[k]);
                }
            }
        } else {
            assert(d.last() == s[s.len() - 2]);
            lemma_tokens_nonempty(d);
            let last = p.len() - 1;
            assert forall|k: int| 0 <= k < t.len() implies #[trigger] t[k].len() > 0 by {
                if k < last {
                    assert(t[k] == p[k]);
                }
            }
            assert forall|k: int, m: int| 0 <= k < t.len() && 0 <= m < t[k].len() implies !is_white_space(
                #[trigger] t[k][m],
            ) by {
                if k < last {
                    assert(t[k] == p[k]);
                } else if m < p[last].len() {
                    assert(t[k][m] == p[last][m]);
                }
            }
        }
    }
}

} // verus!
