//! Verified text utilities: character classes, decimal numerals, and
//! splitting on the `"__"` separator used by the container naming scheme.

use vstd::prelude::*;

verus! {

/// The two-character separator between the segments of a runtime name.
pub open spec fn sep() -> Seq<char> {
    seq!['_', '_']
}

pub open spec fn is_digit_char(c: char) -> bool {
    '0' <= c && c <= '9'
}

/// Hexadecimal digit, either case.
pub open spec fn is_hex_char(c: char) -> bool {
    is_digit_char(c) || ('a' <= c && c <= 'f') || ('A' <= c && c <= 'F')
}

pub open spec fn digit_val(c: char) -> int {
    c as int - '0' as int
}

pub open spec fn digit_char(d: int) -> char
    recommends
        0 <= d < 10,
{
    ((d + '0' as int) as u8) as char
}

pub open spec fn all_digits(s: Seq<char>) -> bool {
    forall|i: int| 0 <= i < s.len() ==> is_digit_char(#[trigger] s[i])
}

/// The numeric value of a sequence of decimal digit characters.
pub open spec fn digits_val(s: Seq<char>) -> int
    decreases s.len(),
{
    if s.len() == 0 {
        0
    } else {
        digits_val(s.drop_last()) * 10 + digit_val(s.last())
    }
}

/// The canonical decimal numeral of a natural number (no leading zeros).
pub open spec fn dec_digits(n: nat) -> Seq<char>
    decreases n,
{
    if n < 10 {
        seq![digit_char(n as int)]
    } else {
        dec_digits(n / 10) + seq![digit_char((n % 10) as int)]
    }
}

pub proof fn lemma_dec_digits_all_digits(n: nat)
    ensures
        all_digits(dec_digits(n)),
        dec_digits(n).len() >= 1,
    decreases n,
{
    if n >= 10 {
        lemma_dec_digits_all_digits(n / 10);
        assert forall|i: int| 0 <= i < dec_digits(n).len() implies is_digit_char(
            #[trigger] dec_digits(n)[i],
        ) by {
            if i < dec_digits((n / 10) as nat).len() {
                assert(dec_digits(n)[i] == dec_digits((n / 10) as nat)[i]);
            }
        }
    }
}

pub proof fn lemma_digit_char_val(d: int)
    requires
        0 <= d < 10,
    ensures
        is_digit_char(digit_char(d)),
        digit_val(digit_char(d)) == d,
        digit_char(d) != '_',
{
    assert(((d + '0' as int) as u8) as char as int == d + '0' as int);
}

pub proof fn lemma_dec_digits_val(n: nat)
    ensures
        digits_val(dec_digits(n)) == n,
    decreases n,
{
    assert(digits_val(Seq::<char>::empty()) == 0);
    if n < 10 {
        lemma_digit_char_val(n as int);
        assert(dec_digits(n).drop_last() =~= Seq::<char>::empty());
        assert(dec_digits(n).last() == digit_char(n as int));
    } else {
        lemma_dec_digits_val(n / 10);
        lemma_digit_char_val((n % 10) as int);
        assert(dec_digits(n).drop_last() =~= dec_digits(n / 10));
        assert(dec_digits(n).last() == digit_char((n % 10) as int));
    }
}

/// The value that parsing a sequence as an unsigned 8-bit decimal yields,
/// if it parses: at least one character, all digits, value at most 255.
pub open spec fn parse_u8_val(s: Seq<char>) -> Option<u8> {
    if s.len() >= 1 && all_digits(s) && digits_val(s) <= 255 {
        Some(digits_val(s) as u8)
    } else {
        None
    }
}

proof fn lemma_digits_val_nonneg(s: Seq<char>)
    requires
        all_digits(s),
    ensures
        digits_val(s) >= 0,
    decreases s.len(),
{
    if s.len() > 0 {
        assert(all_digits(s.drop_last())) by {
            assert(forall|i: int|
                0 <= i < s.len() - 1 ==> is_digit_char(#[trigger] s.drop_last()[i]));
        }
        lemma_digits_val_nonneg(s.drop_last());
    }
}

/// Parse an unsigned 8-bit decimal numeral, exactly when `parse_u8_val` says so.
pub fn parse_dec_u8(s: &str) -> (r: Option<u8>)
    ensures
        r == parse_u8_val(s@),
{
    let len: usize = s.unicode_len();
    if len == 0 {
        return None;
    }
    let mut acc: u32 = 0;
    let mut i: usize = 0;
    while i < len
        invariant
            0 <= i <= len,
            len == s@.len(),
            all_digits(s@.subrange(0, i as int)),
            digits_val(s@.subrange(0, i as int)) <= 255 ==> acc == digits_val(
                s@.subrange(0, i as int),
            ),
            digits_val(s@.subrange(0, i as int)) > 255 ==> acc > 255,
            acc <= 2559,
        decreases len - i,
    {
        let c = s.get_char(i);
        let v = c as u32;
        if v < 48 || v > 57 {
            assert(!is_digit_char(s@[i as int]));
            return None;
        }
        let d: u32 = v - 48;
        proof {
            let pre = s@.subrange(0, i as int);
            let post = s@.subrange(0, i + 1 as int);
            assert(post.drop_last() =~= pre);
            assert(post.last() == s@[i as int]);
            lemma_digits_val_nonneg(pre);
        }
        if acc > 255 {
            // the value is already out of range and stays so
        } else {
            acc = acc * 10 + d;
        }
        i = i + 1;
    }
    proof {
        assert(s@.subrange(0, len as int) =~= s@);
    }
    if acc > 255 {
        None
    } else {
        Some(acc as u8)
    }
}

/// A `&'static str` holding exactly the given decimal digit.
fn digit_str(d: u8) -> (r: &'static str)
    requires
        d < 10,
    ensures
        r@ =~= seq![digit_char(d as int)],
{
    proof {
        reveal_strlit("0");
        reveal_strlit("1");
        reveal_strlit("2");
        reveal_strlit("3");
        reveal_strlit("4");
        reveal_strlit("5");
        reveal_strlit("6");
        reveal_strlit("7");
        reveal_strlit("8");
        reveal_strlit("9");
    }
    match d {
        0 => "0",
        1 => "1",
        2 => "2",
        3 => "3",
        4 => "4",
        5 => "5",
        6 => "6",
        7 => "7",
        8 => "8",
        _ => "9",
    }
}

/// The decimal numeral of `n`, as a string.
pub fn u8_to_dec_str(n: u8) -> (s: String)
    ensures
        s@ =~= dec_digits(n as nat),
{
    let mut s = String::new();
    if n >= 100 {
        s.append(digit_str(n / 100));
        s.append(digit_str((n / 10) % 10));
        s.append(digit_str(n % 10));
        proof {
            assert(dec_digits(n as nat) =~= dec_digits(n as nat / 10) + seq![
                digit_char((n as nat % 10) as int),
            ]);
            assert(dec_digits(n as nat / 10) =~= dec_digits(n as nat / 10 / 10) + seq![
                digit_char((n as nat / 10 % 10) as int),
            ]);
            assert(n as nat / 10 / 10 == n as nat / 100);
            assert(dec_digits(n as nat / 100) =~= seq![digit_char((n as nat / 100) as int)]);
        }
    } else if n >= 10 {
        s.append(digit_str(n / 10));
        s.append(digit_str(n % 10));
        proof {
            assert(dec_digits(n as nat) =~= dec_digits(n as nat / 10) + seq![
                digit_char((n as nat % 10) as int),
            ]);
            assert(dec_digits(n as nat / 10) =~= seq![digit_char((n as nat / 10) as int)]);
        }
    } else {
        s.append(digit_str(n));
    }
    s
}

/// The decimal numeral of a port number, as a string.
pub fn u16_to_dec_str(n: u16) -> (s: String)
    ensures
        s@ =~= dec_digits(n as nat),
{
    let q1: u16 = n / 10;
    let q2: u16 = q1 / 10;
    let q3: u16 = q2 / 10;
    let q4: u16 = q3 / 10;
    let mut s = String::new();
    if n >= 10 {
        if q1 >= 10 {
            if q2 >= 10 {
                if q3 >= 10 {
                    s.append(digit_str((q4 % 10) as u8));
                    proof {
                        assert(q4 < 10);
                        assert(dec_digits(q4 as nat) =~= seq![digit_char((q4 % 10) as int)]);
                    }
                } else {
                    proof {
                        assert(dec_digits(q3 as nat) =~= seq![digit_char((q3 % 10) as int)]);
                    }
                }
                s.append(digit_str((q3 % 10) as u8));
                proof {
                    if q3 >= 10 {
                        assert(dec_digits(q3 as nat) =~= dec_digits(q4 as nat) + seq![
                            digit_char((q3 % 10) as int),
                        ]);
                    }
                }
            } else {
                proof {
                    assert(dec_digits(q2 as nat) =~= seq![digit_char((q2 % 10) as int)]);
                }
            }
            s.append(digit_str((q2 % 10) as u8));
            proof {
                if q2 >= 10 {
                    assert(dec_digits(q2 as nat) =~= dec_digits(q3 as nat) + seq![
                        digit_char((q2 % 10) as int),
                    ]);
                }
            }
        } else {
            proof {
                assert(dec_digits(q1 as nat) =~= seq![digit_char((q1 % 10) as int)]);
            }
        }
        s.append(digit_str((q1 % 10) as u8));
        proof {
            if q1 >= 10 {
                assert(dec_digits(q1 as nat) =~= dec_digits(q2 as nat) + seq![
                    digit_char((q1 % 10) as int),
                ]);
            }
        }
    } else {
        proof {
            assert(dec_digits(n as nat) =~= seq![digit_char((n % 10) as int)]);
        }
    }
    s.append(digit_str((n % 10) as u8));
    proof {
        if n >= 10 {
            assert(dec_digits(n as nat) =~= dec_digits(q1 as nat) + seq![
                digit_char((n % 10) as int),
            ]);
        }
    }
    s
}

/// Splitting a character sequence on the leftmost occurrences of `"__"`,
/// exactly as the runtime-name parser does.
pub open spec fn split_sep(s: Seq<char>) -> Seq<Seq<char>>
    decreases s.len(),
{
    if s.len() >= 2 && s[0] == '_' && s[1] == '_' {
        seq![Seq::<char>::empty()] + split_sep(s.skip(2))
    } else if s.len() == 0 {
        seq![Seq::<char>::empty()]
    } else {
        let rest = split_sep(s.skip(1));
        seq![seq![s[0]] + rest[0]] + rest.skip(1)
    }
}

pub proof fn lemma_split_sep_len(s: Seq<char>)
    ensures
        split_sep(s).len() >= 1,
    decreases s.len(),
{
    if s.len() >= 2 && s[0] == '_' && s[1] == '_' {
        lemma_split_sep_len(s.skip(2));
    } else if s.len() > 0 {
        lemma_split_sep_len(s.skip(1));
    }
}

/// A sequence without underscores is not split at all.
pub proof fn lemma_split_sep_whole(p: Seq<char>)
    requires
        forall|i: int| 0 <= i < p.len() ==> p[i] != '_',
    ensures
        split_sep(p) =~= seq![p],
    decreases p.len(),
{
    if p.len() == 0 {
        assert(p =~= Seq::<char>::empty());
    } else {
        lemma_split_sep_whole(p.skip(1));
        let rest = split_sep(p.skip(1));
        assert(rest == seq![p.skip(1)]);
        assert(seq![p[0]] + rest[0] =~= p);
        assert(rest.skip(1) =~= Seq::<Seq<char>>::empty());
        assert(seq![seq![p[0]] + rest[0]] + rest.skip(1) =~= seq![p]);
    }
}

/// Splitting `p ++ "__" ++ q` where `p` holds no underscore yields `p`
/// followed by the parts of `q`.
pub proof fn lemma_split_sep_concat(p: Seq<char>, q: Seq<char>)
    requires
        forall|i: int| 0 <= i < p.len() ==> p[i] != '_',
    ensures
        split_sep(p + sep() + q) =~= seq![p] + split_sep(q),
    decreases p.len(),
{
    let s = p + sep() + q;
    if p.len() == 0 {
        assert(p =~= Seq::<char>::empty());
        assert(s.len() >= 2 && s[0] == '_' && s[1] == '_');
        assert(s.skip(2) =~= q);
        assert(seq![Seq::<char>::empty()] + split_sep(q) =~= seq![p] + split_sep(q));
    } else {
        assert(s[0] == p[0]);
        assert(s[0] != '_');
        assert(s.len() >= 2);
        let s1 = s.skip(1);
        assert(s1 =~= p.skip(1) + sep() + q);
        lemma_split_sep_concat(p.skip(1), q);
        lemma_split_sep_len(q);
        let rest = split_sep(s1);
        assert(rest =~= seq![p.skip(1)] + split_sep(q));
        assert(rest[0] =~= p.skip(1));
        assert(seq![s[0]] + rest[0] =~= p);
        assert(rest.skip(1) =~= split_sep(q));
    }
}

/// Replace the head part of a split with `pre` prepended to it.
spec fn patched(tail: Seq<Seq<char>>, pre: Seq<char>) -> Seq<Seq<char>>
    recommends
        tail.len() >= 1,
{
    seq![pre + tail[0]] + tail.skip(1)
}

/// Split a string on `"__"`, returning the character ranges of the parts.
pub fn split_sep_ranges(s: &str) -> (parts: Vec<(usize, usize)>)
    ensures
        parts@.len() == split_sep(s@).len(),
        forall|k: int|
            0 <= k < parts@.len() ==> {
                &&& #[trigger] parts@[k].0 <= parts@[k].1 <= s@.len()
                &&& split_sep(s@)[k] =~= s@.subrange(parts@[k].0 as int, parts@[k].1 as int)
            },
{
    let len: usize = s.unicode_len();
    let mut parts: Vec<(usize, usize)> = Vec::new();
    let mut start: usize = 0;
    let mut i: usize = 0;
    proof {
        let w = s@;
        assert(w.skip(0) =~= w);
        lemma_split_sep_len(w);
        let t = split_sep(w);
        assert(patched(t, w.subrange(0, 0)) =~= t) by {
            assert(w.subrange(0, 0) + t[0] =~= t[0]);
            assert(seq![t[0]] + t.skip(1) =~= t);
        }
        assert(parts@.map_values(|r: (usize, usize)| w.subrange(r.0 as int, r.1 as int)) + patched(
            t,
            w.subrange(0, 0),
        ) =~= t);
    }
    while i < len
        invariant
            0 <= start <= i <= len,
            len == s@.len(),
            split_sep(s@.skip(i as int)).len() >= 1,
            split_sep(s@) =~= parts@.map_values(
                |r: (usize, usize)| s@.subrange(r.0 as int, r.1 as int),
            ) + patched(split_sep(s@.skip(i as int)), s@.subrange(start as int, i as int)),
            forall|k: int| 0 <= k < parts@.len() ==> #[trigger] parts@[k].0 <= parts@[k].1 <= len,
        decreases len - i,
    {
        let ghost w = s@;
        let ghost tail = w.skip(i as int);
        let c = s.get_char(i);
        if c == '_' && i + 1 < len && s.get_char(i + 1) == '_' {
            proof {
                assert(tail[0] == '_' && tail[1] == '_');
                assert(tail.skip(2) =~= w.skip(i + 2));
                lemma_split_sep_len(w.skip(i + 2));
                assert(split_sep(tail) =~= seq![Seq::<char>::empty()] + split_sep(w.skip(i + 2)));
            }
            let ghost old_parts = parts@;
            parts.push((start, i));
            proof {
                assert forall|k: int| 0 <= k < parts@.len() implies #[trigger] parts@[k].0
                    <= parts@[k].1 <= len by {
                    if k < parts@.len() - 1 {
                        assert(parts@[k] == old_parts[k]);
                    } else {
                        assert(parts@[k] == (start, i));
                    }
                }
                let pre = w.subrange(start as int, i as int);
                let before = parts@.drop_last().map_values(
                    |r: (usize, usize)| w.subrange(r.0 as int, r.1 as int),
                );
                let after = parts@.map_values(
                    |r: (usize, usize)| w.subrange(r.0 as int, r.1 as int),
                );
                assert(after =~= before + seq![pre]);
                assert(patched(split_sep(tail), pre) =~= seq![pre] + patched(
                    split_sep(w.skip(i + 2)),
                    w.subrange(i + 2, i + 2),
                )) by {
                    assert(pre + Seq::<char>::empty() =~= pre);
                    assert(w.subrange(i + 2, i + 2) + split_sep(w.skip(i + 2))[0] =~= split_sep(
                        w.skip(i + 2),
                    )[0]);
                    assert((seq![Seq::<char>::empty()] + split_sep(w.skip(i + 2))).skip(1)
                        =~= split_sep(w.skip(i + 2)));
                }
                assert(split_sep(w) =~= after + patched(
                    split_sep(w.skip(i + 2)),
                    w.subrange(i + 2, i + 2),
                ));
            }
            start = i + 2;
            i = i + 2;
        } else {
            proof {
                assert(!(tail.len() >= 2 && tail[0] == '_' && tail[1] == '_')) by {
                    if tail.len() >= 2 && i + 1 < len {
                        assert(tail[1] == w[i + 1]);
                    }
                }
                assert(tail.len() > 0);
                let rest = split_sep(tail.skip(1));
                assert(tail.skip(1) =~= w.skip(i + 1));
                lemma_split_sep_len(w.skip(i + 1));
                assert(split_sep(tail) =~= seq![seq![tail[0]] + rest[0]] + rest.skip(1));
                let pre = w.subrange(start as int, i as int);
                let pre1 = w.subrange(start as int, i + 1);
                assert(pre1 =~= pre + seq![w[i as int]]);
                assert(patched(split_sep(tail), pre) =~= patched(split_sep(w.skip(i + 1)), pre1))
                    by {
                    assert(pre + (seq![tail[0]] + rest[0]) =~= pre1 + rest[0]);
                    assert((seq![seq![tail[0]] + rest[0]] + rest.skip(1)).skip(1) =~= rest.skip(
                        1,
                    ));
                }
            }
            i = i + 1;
        }
    }
    proof {
        let w = s@;
        assert(w.skip(len as int) =~= Seq::<char>::empty());
        assert(split_sep(w.skip(len as int)) =~= seq![Seq::<char>::empty()]);
    }
    parts.push((start, len));
    proof {
        let w = s@;
        let pre = w.subrange(start as int, len as int);
        let before = parts@.drop_last().map_values(
            |r: (usize, usize)| w.subrange(r.0 as int, r.1 as int),
        );
        let after = parts@.map_values(|r: (usize, usize)| w.subrange(r.0 as int, r.1 as int));
        assert(after =~= before + seq![pre]);
        assert(patched(seq![Seq::<char>::empty()], pre) =~= seq![pre]) by {
            assert(pre + Seq::<char>::empty() =~= pre);
            assert(seq![pre + Seq::<char>::empty()].skip(0) =~= seq![pre + Seq::<char>::empty()]);
        }
        assert(split_sep(w) =~= after);
        assert forall|k: int| 0 <= k < parts@.len() implies {
            &&& #[trigger] parts@[k].0 <= parts@[k].1 <= w.len()
            &&& split_sep(w)[k] =~= w.subrange(parts@[k].0 as int, parts@[k].1 as int)
        } by {
            assert(split_sep(w)[k] == after[k]);
        }
    }
    parts
}

} // verus!
