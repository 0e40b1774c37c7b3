use vstd::prelude::*;

use crate::chars::{
    chars_eq, chars_eq_str, chars_of, char_pos, find_char, lemma_char_pos_found,
    lemma_char_pos_missing, lemma_prefix_len, lower, prefix_len, spec_is_digit, spec_lower,
    spec_split, spec_trim, spec_words, split_on, subvec, trim_range, words,
};
use crate::geometry::{Color, LinearGradient, GradientView};
use crate::layout::{
    AlignItems, COORD_LIMIT, Dimension, EdgeValues, FlexDirection, InsetValue, InsetValues, JustifyContent,
    LayoutStyle, Position,
};
use crate::style::{ContainerStyle, Overflow, StyleView};

verus! {

/// Largest number the value parsers accept, in thousandths: the coordinate
/// limit itself, scaled.
pub const MILLE_CAP: i64 = 0x100_0000 * 1000;

/// Numeric value of a digit string, most significant first.
pub open spec fn spec_digits_val(s: Seq<char>) -> int
    decreases s.len(),
{
    if s.len() == 0 {
        0
    } else {
        10 * spec_digits_val(s.drop_last()) + (s.last() as int - '0' as int)
    }
}

/// Every character of `s` is a decimal digit.
pub open spec fn all_digits(s: Seq<char>) -> bool {
    forall|i: int| 0 <= i < s.len() ==> spec_is_digit(s[i])
}

/// A digit string's value is never negative.
proof fn lemma_digits_nonneg(s: Seq<char>)
    requires
        all_digits(s),
    ensures
        0 <= spec_digits_val(s),
    decreases s.len(),
{
    if s.len() > 0 {
        assert(all_digits(s.drop_last()));
        lemma_digits_nonneg(s.drop_last());
        assert(spec_is_digit(s.last()));
    }
}

/// Extending a digit string never shrinks its value.
proof fn lemma_digits_prefix(s: Seq<char>, i: int)
    requires
        all_digits(s),
        0 <= i <= s.len(),
    ensures
        spec_digits_val(s.take(i)) <= spec_digits_val(s),
    decreases s.len(),
{
    if i == s.len() {
        assert(s.take(i) =~= s);
    } else {
        assert(all_digits(s.drop_last()));
        assert(s.take(i) =~= s.drop_last().take(i));
        lemma_digits_prefix(s.drop_last(), i);
        lemma_digits_nonneg(s.drop_last());
        assert(spec_is_digit(s.last()));
    }
}

/// Parse `v` as an unsigned digit string. Yields its value when `v` is
/// nonempty, all digits, and the value is at most `cap`.
fn parse_digits(v: &[char], cap: i64) -> (r: Option<i64>)
    requires
        0 <= cap <= 0x100_0000_0000_0000,
    ensures
        r == (if all_digits(v@) && v@.len() > 0 && spec_digits_val(v@) <= cap {
            Option::Some(spec_digits_val(v@) as i64)
        } else {
            Option::<i64>::None
        }),
        r matches Option::Some(w) ==> 0 <= w <= cap,
{
    let n = v.len();
    if n == 0 {
        return Option::None;
    }
    let mut acc: i64 = 0;
    let mut i: usize = 0;
    while i < n
        invariant
            i <= n,
            n == v@.len(),
            all_digits(v@.take(i as int)),
            acc == spec_digits_val(v@.take(i as int)),
            0 <= acc <= cap,
            cap <= 0x100_0000_0000_0000,
        decreases n - i,
    {
        let c = v[i];
        if c < '0' || c > '9' {
            assert(!spec_is_digit(v@[i as int]));
            return Option::None;
        }
        let d = (c as u32 - '0' as u32) as i64;
        let next = acc * 10 + d;
        proof {
            assert(v@.take(i + 1 as int).drop_last() =~= v@.take(i as int));
            assert(v@.take(i + 1 as int).last() == v@[i as int]);
        }
        if next > cap {
            assert(!(all_digits(v@) && spec_digits_val(v@) <= cap)) by {
                if all_digits(v@) {
                    assert(v@.take(i + 1 as int) =~= v@.take(i + 1));
                    lemma_digits_prefix(v@, i + 1);
                }
            }
            return Option::None;
        }
        acc = next;
        i = i + 1;
    }
    proof {
        assert(v@.take(n as int) =~= v@);
    }
    Option::Some(acc)
}

/// The first three fraction digits, scaled to thousandths.
pub open spec fn spec_frac_mille(f: Seq<char>) -> int {
    if f.len() == 0 {
        0
    } else if f.len() == 1 {
        100 * spec_digits_val(f)
    } else if f.len() == 2 {
        10 * spec_digits_val(f)
    } else {
        spec_digits_val(f.take(3))
    }
}

/// The scaled fraction digits always lie in `[0, 1000)`.
proof fn lemma_frac_mille_bounds(f: Seq<char>)
    requires
        all_digits(f),
    ensures
        0 <= spec_frac_mille(f),
{
    if f.len() >= 3 {
        assert(all_digits(f.take(3)));
        lemma_digits_nonneg(f.take(3));
    } else {
        lemma_digits_nonneg(f);
    }
}

/// Value in thousandths of an unsigned decimal numeral: digits, optionally
/// followed by a point and fraction digits, with at least one digit in all.
pub open spec fn spec_mille_unsigned(s: Seq<char>) -> Option<int> {
    let k = prefix_len(s, |c: char| spec_is_digit(c));
    let ip = s.take(k);
    let rest = s.skip(k);
    if rest.len() == 0 {
        if k > 0 {
            Option::Some(1000 * spec_digits_val(ip))
        } else {
            Option::None
        }
    } else if rest[0] == '.' {
        let frac = rest.drop_first();
        if all_digits(frac) && (k > 0 || frac.len() > 0) {
            Option::Some(1000 * spec_digits_val(ip) + spec_frac_mille(frac))
        } else {
            Option::None
        }
    } else {
        Option::None
    }
}

/// Value in thousandths of a decimal numeral with optional sign, if it
/// parses and its magnitude stays within `MILLE_CAP`.
pub open spec fn spec_parse_mille(s: Seq<char>) -> Option<i64> {
    if s.len() == 0 {
        Option::None
    } else {
        let neg = s[0] == '-';
        let body = if s[0] == '-' || s[0] == '+' {
            s.drop_first()
        } else {
            s
        };
        match spec_mille_unsigned(body) {
            Option::Some(m) => if m <= MILLE_CAP {
                Option::Some(
                    (if neg {
                        -m
                    } else {
                        m
                    }) as i64,
                )
            } else {
                Option::None
            },
            Option::None => Option::None,
        }
    }
}

/// Parse a decimal numeral into thousandths: `spec_parse_mille` exactly.
#[verifier::rlimit(50)]
pub fn parse_mille(v: &[char]) -> (r: Option<i64>)
    ensures
        r == spec_parse_mille(v@),
        r matches Option::Some(m) ==> -MILLE_CAP <= m <= MILLE_CAP,
{
    let n = v.len();
    if n == 0 {
        return Option::None;
    }
    let neg = v[0] == '-';
    let skip_sign: usize = if v[0] == '-' || v[0] == '+' {
        1
    } else {
        0
    };
    let ghost body = v@.skip(skip_sign as int);
    proof {
        if skip_sign == 1 {
            assert(body =~= v@.drop_first());
        } else {
            assert(body =~= v@);
        }
    }
    // Find the end of the integer-part digits.
    let mut k: usize = skip_sign;
    while k < n
        invariant
            skip_sign <= k <= n,
            n == v@.len(),
            forall|j: int| skip_sign <= j < k ==> spec_is_digit(v@[j]),
        ensures
            skip_sign <= k <= n,
            forall|j: int| skip_sign <= j < k ==> spec_is_digit(v@[j]),
            k < n ==> !spec_is_digit(v@[k as int]),
        decreases n - k,
    {
        let c = v[k];
        if c < '0' || c > '9' {
            break ;
        }
        k = k + 1;
    }
    proof {
        lemma_prefix_len(body, |c: char| spec_is_digit(c), k - skip_sign);
        assert(body.take(k - skip_sign) =~= v@.subrange(skip_sign as int, k as int));
        assert(body.skip(k - skip_sign) =~= v@.skip(k as int));
    }
    let ip = subvec(v, skip_sign, k);
    proof {
        assert(all_digits(ip@));
    }
    if k == n {
        // No fraction part.
        proof {
            assert(body.skip(k - skip_sign).len() == 0);
        }
        match parse_digits(ip.as_slice(), COORD_LIMIT) {
            Option::Some(whole) => {
                proof {
                    lemma_digits_nonneg(ip@);
                }
                let m = whole * 1000;
                Option::Some(if neg { -m } else { m })
            },
            Option::None => {
                proof {
                    if ip@.len() > 0 {
                        lemma_digits_nonneg(ip@);
                    }
                }
                Option::None
            },
        }
    } else if v[k] == '.' {
        let ghost frac = body.skip(k - skip_sign).drop_first();
        proof {
            assert(frac =~= v@.skip(k + 1 as int));
        }
        // Every fraction character must be a digit.
        let mut j: usize = k + 1;
        while j < n
            invariant
                k + 1 <= j <= n,
                n == v@.len(),
                forall|t: int| k + 1 <= t < j ==> spec_is_digit(v@[t]),
            ensures
                k + 1 <= j <= n,
                forall|t: int| k + 1 <= t < j ==> spec_is_digit(v@[t]),
                j < n ==> !spec_is_digit(v@[j as int]),
            decreases n - j,
        {
            let c = v[j];
            if c < '0' || c > '9' {
                break ;
            }
            j = j + 1;
        }
        if j < n {
            proof {
                let kk = prefix_len(body, |c: char| spec_is_digit(c));
                assert(kk == k - skip_sign);
                assert(body.skip(kk).len() > 0);
                assert(body.skip(kk)[0] == '.');
                assert(!spec_is_digit(frac[j - (k + 1)]));
                assert(!all_digits(body.skip(kk).drop_first()));
                assert(spec_mille_unsigned(body) is None);
            }
            return Option::None;
        }
        assert(all_digits(frac));
        if ip.len() == 0 && k + 1 == n {
            // A bare point is no number.
            return Option::None;
        }
        let whole = match parse_digits(ip.as_slice(), COORD_LIMIT) {
            Option::Some(w) => w,
            Option::None => {
                if ip.len() == 0 {
                    0
                } else {
                    // The integer part alone already exceeds the cap.
                    proof {
                        lemma_digits_nonneg(ip@);
                        lemma_frac_mille_bounds(frac);
                    }
                    return Option::None;
                }
            },
        };
        // Read up to three fraction digits, scaled to thousandths.
        let f_len = n - (k + 1);
        let take = if f_len < 3 {
            f_len
        } else {
            3
        };
        let mut fv: i64 = 0;
        let mut t: usize = 0;
        while t < take
            invariant
                t <= take <= 3,
                take <= f_len,
                f_len == n - (k + 1),
                k + 1 + take <= n,
                n == v@.len(),
                forall|u: int| k + 1 <= u < n ==> spec_is_digit(v@[u]),
                0 <= fv,
                fv <= (if t == 0 {
                    0int
                } else if t == 1 {
                    9
                } else if t == 2 {
                    99
                } else {
                    999
                }),
                fv == spec_digits_val(v@.subrange(k + 1 as int, (k + 1 + t) as int)),
            decreases take - t,
        {
            let c = v[k + 1 + t];
            let d = (c as u32 - '0' as u32) as i64;
            proof {
                assert(v@.subrange(k + 1 as int, (k + 1 + t + 1) as int).drop_last()
                    =~= v@.subrange(k + 1 as int, (k + 1 + t) as int));
                assert(spec_is_digit(v@[(k + 1 + t) as int]));
            }
            fv = fv * 10 + d;
            t = t + 1;
        }
        let fm = if f_len == 0 {
            0
        } else if f_len == 1 {
            fv * 100
        } else if f_len == 2 {
            fv * 10
        } else {
            fv
        };
        proof {
            if f_len >= 3 {
                assert(take == 3);
                assert(frac.take(3) =~= v@.subrange(k + 1 as int, (k + 1 + take) as int));
            } else {
                assert(take == f_len);
                assert(frac =~= v@.subrange(k + 1 as int, (k + 1 + take) as int));
            }
            assert(fm == spec_frac_mille(frac));
            if ip@.len() > 0 {
                lemma_digits_nonneg(ip@);
            }
        }
        let m = whole * 1000 + fm;
        if m > MILLE_CAP {
            return Option::None;
        }
        Option::Some(if neg { -m } else { m })
    } else {
        assert(body.skip(k - skip_sign)[0] != '.');
        Option::None
    }
}

/// The RGBA channels that a CSS color string denotes, if it is a valid
/// color. The full color grammar (hex forms, named colors, `rgb()`,
/// `hsl()`, and the rest) lives in the outside parser; this names its
/// result, which depends on the characters alone.
pub uninterp spec fn css_color_of(s: Seq<char>) -> Option<(u8, u8, u8, u8)>;

/// Relies on `csscolorparser::parse` and `csscolorparser::Color::to_rgba8`:
/// parsing is a pure function of the string, and `to_rgba8` renders the
/// parsed color as four 8-bit channels.
#[verifier::external_body]
fn parse_color_raw(v: &[char]) -> (r: Option<(u8, u8, u8, u8)>)
    ensures
        r == css_color_of(v@),
{
    let s: String = v.iter().collect();
    match csscolorparser::parse(&s) {
        Ok(c) => {
            let [red, green, blue, alpha] = c.to_rgba8();
            Some((red, green, blue, alpha))
        },
        Err(_) => None,
    }
}

/// The `Color` a CSS color value denotes, if any.
pub open spec fn spec_color_value(s: Seq<char>) -> Option<Color> {
    match css_color_of(s) {
        Option::Some(t) => Option::Some(Color { r: t.0, g: t.1, b: t.2, a: t.3 }),
        Option::None => Option::None,
    }
}

/// Parse a CSS color value into the engine's color type.
pub fn parse_color_value(v: &[char]) -> (r: Option<Color>)
    ensures
        r == spec_color_value(v@),
{
    match parse_color_raw(v) {
        Option::Some(t) => Option::Some(Color { r: t.0, g: t.1, b: t.2, a: t.3 }),
        Option::None => Option::None,
    }
}

/// Pixel value of a CSS length: a decimal numeral with an optional `px`
/// suffix, truncated to whole pixels.
pub open spec fn spec_parse_px(s: Seq<char>) -> Option<i64> {
    let body = if s.len() >= 2 && s[s.len() - 2] == 'p' && s[s.len() - 1] == 'x' {
        s.take(s.len() - 2)
    } else {
        s
    };
    match spec_parse_mille(body) {
        Option::Some(m) => Option::Some(
            (if m >= 0 {
                m / 1000
            } else {
                -((-m) / 1000)
            }) as i64,
        ),
        Option::None => Option::None,
    }
}

/// Parse a CSS pixel length: `spec_parse_px` exactly.
pub fn parse_px(v: &[char]) -> (r: Option<i64>)
    ensures
        r == spec_parse_px(v@),
        r matches Option::Some(p) ==> -COORD_LIMIT <= p <= COORD_LIMIT,
{
    let n = v.len();
    let body: Vec<char> = if n >= 2 && v[n - 2] == 'p' && v[n - 1] == 'x' {
        subvec(v, 0, n - 2)
    } else {
        subvec(v, 0, n)
    };
    proof {
        if !(n >= 2 && v@[n - 2] == 'p' && v@[n - 1] == 'x') {
            assert(v@.subrange(0, n as int) =~= v@);
        }
    }
    match parse_mille(body.as_slice()) {
        Option::Some(m) => {
            if m >= 0 {
                Option::Some(m / 1000)
            } else {
                Option::Some(-((-m) / 1000))
            }
        },
        Option::None => Option::None,
    }
}

/// `s` with every trailing `)` removed.
pub open spec fn strip_close_parens(s: Seq<char>) -> Seq<char>
    decreases s.len(),
{
    if s.len() > 0 && s[s.len() - 1] == ')' {
        strip_close_parens(s.drop_last())
    } else {
        s
    }
}

/// Whether `s` begins with the prefix `p`.
pub open spec fn spec_starts_with(s: Seq<char>, p: Seq<char>) -> bool {
    s.len() >= p.len() && s.take(p.len() as int) == p
}

/// The position a gradient stop takes: an explicit percentage if one
/// follows the color, otherwise the start for the first stop and the end
/// for any later one. In thousandths.
pub open spec fn spec_stop_pos(toks: Seq<Seq<char>>, i: int, first: int) -> u32 {
    if toks.len() > 1 {
        let t = toks[1];
        if t.len() > 0 && t[t.len() - 1] == '%' {
            match spec_parse_mille(t.drop_last()) {
                Option::Some(m) => if m >= 0 {
                    (m / 100) as u32
                } else {
                    0
                },
                Option::None => 0,
            }
        } else {
            0
        }
    } else if i == first {
        0
    } else {
        1000
    }
}

/// The color stops among `parts[i..]`: each part whose first word is a
/// valid color contributes one stop.
pub open spec fn spec_gradient_stops(parts: Seq<Seq<char>>, i: int, first: int) -> Seq<
    (Color, u32),
>
    decreases parts.len() - i,
{
    if i < 0 || i >= parts.len() {
        Seq::empty()
    } else {
        let rest = spec_gradient_stops(parts, i + 1, first);
        let toks = spec_words(parts[i]);
        if toks.len() == 0 {
            rest
        } else {
            match spec_color_value(toks[0]) {
                Option::Some(col) => seq![(col, spec_stop_pos(toks, i, first))] + rest,
                Option::None => rest,
            }
        }
    }
}

/// The angle in degrees named by a gradient's first segment, and whether
/// that segment is a header rather than a stop: `<n>deg` gives `n`,
/// `to right` 90, `to bottom` 180; anything else leaves the default 180
/// and is read as a stop.
pub open spec fn spec_gradient_header(first: Seq<char>) -> Option<i32> {
    if first.len() >= 3 && first[first.len() - 3] == 'd' && first[first.len() - 2] == 'e'
        && first[first.len() - 1] == 'g' {
        match spec_parse_mille(first.take(first.len() - 3)) {
            Option::Some(m) => Option::Some(
                (if m >= 0 {
                    m / 1000
                } else {
                    -((-m) / 1000)
                }) as i32,
            ),
            Option::None => Option::Some(180),
        }
    } else if first == "to right"@ {
        Option::Some(90)
    } else if first == "to bottom"@ {
        Option::Some(180)
    } else {
        Option::None
    }
}

/// The gradient a `linear-gradient(...)` value denotes: the optional
/// leading angle segment, then one stop per comma-separated color.
pub open spec fn spec_parse_gradient(s: Seq<char>) -> GradientView {
    let lit = "linear-gradient("@;
    let inner0 = if spec_starts_with(s, lit) {
        s.skip(lit.len() as int)
    } else {
        s
    };
    let inner = strip_close_parens(inner0);
    let parts = spec_split(inner, ',');
    let first = spec_trim(parts[0]);
    match spec_gradient_header(first) {
        Option::Some(a) => GradientView {
            angle: a as int,
            stops: spec_gradient_stops(parts, 1, 1),
        },
        Option::None => GradientView { angle: 180, stops: spec_gradient_stops(parts, 0, 0) },
    }
}

/// Parse a `linear-gradient(...)` value.
pub fn parse_linear_gradient(v: &[char]) -> (g: LinearGradient)
    ensures
        g@ == spec_parse_gradient(v@),
{
    let lit = chars_of("linear-gradient(");
    let pl = lit.len();
    let mut has_prefix = false;
    if v.len() >= pl {
        let head = subvec(v, 0, pl);
        has_prefix = chars_eq(head.as_slice(), lit.as_slice());
        proof {
            assert(head@ =~= v@.take(pl as int));
        }
    }
    proof {
        assert(has_prefix == spec_starts_with(v@, lit@));
    }
    let start: usize = if has_prefix {
        pl
    } else {
        0
    };
    proof {
        assert(v@.skip(start as int) =~= v@.subrange(start as int, v@.len() as int));
        if !has_prefix {
            assert(v@.skip(0) =~= v@);
        }
    }
    let mut end: usize = v.len();
    while end > start
        invariant
            start <= end <= v@.len(),
            strip_close_parens(v@.skip(start as int)) == strip_close_parens(
                v@.subrange(start as int, end as int),
            ),
        ensures
            start <= end <= v@.len(),
            strip_close_parens(v@.skip(start as int)) == strip_close_parens(
                v@.subrange(start as int, end as int),
            ),
            end > start ==> v@[end - 1] != ')',
        decreases end,
    {
        if v[end - 1] != ')' {
            break ;
        }
        proof {
            let cur = v@.subrange(start as int, end as int);
            assert(cur.drop_last() =~= v@.subrange(start as int, end - 1));
        }
        end = end - 1;
    }
    let ghost inner = v@.subrange(start as int, end as int);
    proof {
        assert(v@.skip(start as int) =~= v@.subrange(start as int, v@.len() as int));
        if end == start {
            assert(strip_close_parens(inner) == inner);
        }
        assert(strip_close_parens(inner) =~= inner);
    }
    let inner_v = subvec(v, start, end);
    let parts = split_on(inner_v.as_slice(), ',');
    let ghost parts_spec = spec_split(inner, ',');
    let first = trim_range(parts[0].as_slice(), 0, parts[0].len());
    proof {
        assert(parts[0]@.subrange(0, parts[0]@.len() as int) =~= parts_spec[0]);
    }
    let fl = first.len();
    let mut angle: i32 = 180;
    let mut start_idx: usize = 0;
    if fl >= 3 && first[fl - 3] == 'd' && first[fl - 2] == 'e' && first[fl - 1] == 'g' {
        let num = subvec(first.as_slice(), 0, fl - 3);
        match parse_mille(num.as_slice()) {
            Option::Some(m) => {
                angle = if m >= 0 {
                    (m / 1000) as i32
                } else {
                    (-((-m) / 1000)) as i32
                };
            },
            Option::None => {
                angle = 180;
            },
        }
        start_idx = 1;
    } else if chars_eq_str(first.as_slice(), "to right") {
        angle = 90;
        start_idx = 1;
    } else if chars_eq_str(first.as_slice(), "to bottom") {
        angle = 180;
        start_idx = 1;
    }
    let mut stops: Vec<(Color, u32)> = Vec::new();
    let n = parts.len();
    let mut i: usize = start_idx;
    proof {
        assert(spec_gradient_header(first@) is Some <==> start_idx == 1);
    }
    while i < n
        invariant
            start_idx <= i <= n,
            n == parts_spec.len(),
            parts@.len() == parts_spec.len(),
            forall|j: int| 0 <= j < n ==> parts@[j]@ == parts_spec[j],
            spec_gradient_stops(parts_spec, start_idx as int, start_idx as int) =~= stops@
                + spec_gradient_stops(parts_spec, i as int, start_idx as int),
        decreases n - i,
    {
        let ghost before = stops@;
        let toks = words(parts[i].as_slice());
        if toks.len() > 0 {
            match parse_color_value(toks[0].as_slice()) {
                Option::Some(col) => {
                    let pos: u32 = if toks.len() > 1 {
                        let t = &toks[1];
                        let tl = t.len();
                        if tl > 0 && t[tl - 1] == '%' {
                            let numv = subvec(t.as_slice(), 0, tl - 1);
                            proof {
                                assert(numv@ =~= toks[1]@.drop_last());
                            }
                            match parse_mille(numv.as_slice()) {
                                Option::Some(m) => {
                                    if m >= 0 {
                                        (m / 100) as u32
                                    } else {
                                        0
                                    }
                                },
                                Option::None => 0,
                            }
                        } else {
                            0
                        }
                    } else if i == start_idx {
                        0
                    } else {
                        1000
                    };
                    stops.push((col, pos));
                    proof {
                        let toks_spec = spec_words(parts_spec[i as int]);
                        assert(toks@.map_values(|p: Vec<char>| p@) =~= toks_spec);
                        assert(toks[0]@ == toks_spec[0]);
                        if toks@.len() > 1 {
                            assert(toks[1]@ == toks_spec[1]);
                        }
                        assert(pos == spec_stop_pos(toks_spec, i as int, start_idx as int));
                        assert(stops@ =~= before + seq![(col, pos)]);
                        assert(before + seq![(col, pos)] + spec_gradient_stops(
                            parts_spec,
                            i + 1,
                            start_idx as int,
                        ) =~= before + spec_gradient_stops(
                            parts_spec,
                            i as int,
                            start_idx as int,
                        ));
                    }
                },
                Option::None => {
                    proof {
                        let toks_spec = spec_words(parts_spec[i as int]);
                        assert(toks@.map_values(|p: Vec<char>| p@) =~= toks_spec);
                        assert(toks[0]@ == toks_spec[0]);
                    }
                },
            }
        } else {
            proof {
                let toks_spec = spec_words(parts_spec[i as int]);
                assert(toks@.map_values(|p: Vec<char>| p@) =~= toks_spec);
            }
        }
        i = i + 1;
    }
    proof {
        assert(stops@ + spec_gradient_stops(parts_spec, n as int, start_idx as int) =~= stops@);
    }
    LinearGradient { angle, stops }
}

/// Whether `v` begins with the prefix `p`.
fn starts_with_chars(v: &[char], p: &[char]) -> (r: bool)
    ensures
        r == spec_starts_with(v@, p@),
{
    if v.len() < p.len() {
        false
    } else {
        let head = subvec(v, 0, p.len());
        proof {
            assert(head@ =~= v@.take(p@.len() as int));
        }
        chars_eq(head.as_slice(), p)
    }
}

/// The edge lengths a one-, two-, or four-word pixel list denotes:
/// one word sets all edges, two set vertical then horizontal, four set
/// top, right, bottom, left.
pub open spec fn spec_parse_edges(s: Seq<char>) -> Option<EdgeValues> {
    let ws = spec_words(s);
    if ws.len() == 1 {
        match spec_parse_px(ws[0]) {
            Option::Some(a) => Option::Some(EdgeValues { left: a, right: a, top: a, bottom: a }),
            Option::None => Option::None,
        }
    } else if ws.len() == 2 {
        match (spec_parse_px(ws[0]), spec_parse_px(ws[1])) {
            (Option::Some(vv), Option::Some(hh)) => Option::Some(
                EdgeValues { left: hh, right: hh, top: vv, bottom: vv },
            ),
            _ => Option::None,
        }
    } else if ws.len() == 4 {
        match (spec_parse_px(ws[0]), spec_parse_px(ws[1]), spec_parse_px(ws[2]), spec_parse_px(
            ws[3],
        )) {
            (
                Option::Some(t),
                Option::Some(rr),
                Option::Some(b),
                Option::Some(l),
            ) => Option::Some(EdgeValues { left: l, right: rr, top: t, bottom: b }),
            _ => Option::None,
        }
    } else {
        Option::None
    }
}

/// Parse a whitespace-separated pixel list into edge lengths.
pub fn parse_edges(v: &[char]) -> (r: Option<EdgeValues>)
    ensures
        r == spec_parse_edges(v@),
{
    let ws = words(v);
    proof {
        assert(forall|j: int| 0 <= j < ws@.len() ==> ws@[j]@ == spec_words(v@)[j]);
    }
    if ws.len() == 1 {
        match parse_px(ws[0].as_slice()) {
            Option::Some(a) => Option::Some(EdgeValues { left: a, right: a, top: a, bottom: a }),
            Option::None => Option::None,
        }
    } else if ws.len() == 2 {
        let pv = parse_px(ws[0].as_slice());
        let ph = parse_px(ws[1].as_slice());
        match (pv, ph) {
            (Option::Some(vv), Option::Some(hh)) => Option::Some(
                EdgeValues { left: hh, right: hh, top: vv, bottom: vv },
            ),
            _ => Option::None,
        }
    } else if ws.len() == 4 {
        let pt = parse_px(ws[0].as_slice());
        let pr = parse_px(ws[1].as_slice());
        let pb = parse_px(ws[2].as_slice());
        let pl = parse_px(ws[3].as_slice());
        match (pt, pr, pb, pl) {
            (
                Option::Some(t),
                Option::Some(rr),
                Option::Some(b),
                Option::Some(l),
            ) => Option::Some(EdgeValues { left: l, right: rr, top: t, bottom: b }),
            _ => Option::None,
        }
    } else {
        Option::None
    }
}

/// One pass of a `border` shorthand over its words: each pixel word sets
/// the border width, each color word the border color.
pub open spec fn spec_apply_border(cs: StyleView, parts: Seq<Seq<char>>, i: int) -> StyleView
    decreases parts.len() - i,
{
    if i < 0 || i >= parts.len() {
        cs
    } else {
        let next = match spec_parse_px(parts[i]) {
            Option::Some(w) => StyleView { border_width: w, ..cs },
            Option::None => match spec_color_value(parts[i]) {
                Option::Some(c) => StyleView { border_color: Option::Some(c), ..cs },
                Option::None => cs,
            },
        };
        spec_apply_border(next, parts, i + 1)
    }
}

/// The effect of one inline declaration `prop: value` on the paint style
/// and the layout constraints. A declaration without a colon, an unknown
/// property, or an unparsable value changes nothing.
pub open spec fn spec_apply_decl(cs: StyleView, ls: LayoutStyle, d: Seq<char>) -> (
    StyleView,
    LayoutStyle,
) {
    let ci = char_pos(d, ':');
    if !(0 <= ci < d.len()) {
        (cs, ls)
    } else {
        let prop = spec_lower(spec_trim(d.take(ci)));
        let val = spec_trim(d.skip(ci + 1));
        if prop == "color"@ {
            match spec_color_value(val) {
                Option::Some(c) => (StyleView { color: c, ..cs }, ls),
                Option::None => (cs, ls),
            }
        } else if prop == "background-color"@ {
            match spec_color_value(val) {
                Option::Some(c) => (
                    StyleView {
                        background_color: Option::Some(c),
                        background_gradient: Option::None,
                        ..cs
                    },
                    ls,
                ),
                Option::None => (cs, ls),
            }
        } else if prop == "background"@ {
            if spec_starts_with(val, "linear-gradient("@) {
                (
                    StyleView {
                        background_gradient: Option::Some(spec_parse_gradient(val)),
                        background_color: Option::None,
                        ..cs
                    },
                    ls,
                )
            } else {
                match spec_color_value(val) {
                    Option::Some(c) => (
                        StyleView {
                            background_color: Option::Some(c),
                            background_gradient: Option::None,
                            ..cs
                        },
                        ls,
                    ),
                    Option::None => (cs, ls),
                }
            }
        } else if prop == "font-size"@ {
            match spec_parse_px(val) {
                Option::Some(p) => if p >= 0 {
                    (StyleView { font_size: p as u32, ..cs }, ls)
                } else {
                    (cs, ls)
                },
                Option::None => (cs, ls),
            }
        } else if prop == "font-weight"@ {
            if val == "bold"@ || val == "700"@ || val == "800"@ || val == "900"@ {
                (StyleView { weight: 1, ..cs }, ls)
            } else {
                (StyleView { weight: 0, ..cs }, ls)
            }
        } else if prop == "border-radius"@ {
            match spec_parse_px(val) {
                Option::Some(p) => (StyleView { border_radius: p, ..cs }, ls),
                Option::None => if val == "50%"@ {
                    (StyleView { border_radius: 9999, ..cs }, ls)
                } else {
                    (cs, ls)
                },
            }
        } else if prop == "border-width"@ {
            match spec_parse_px(val) {
                Option::Some(p) => (StyleView { border_width: p, ..cs }, ls),
                Option::None => (cs, ls),
            }
        } else if prop == "border-color"@ {
            match spec_color_value(val) {
                Option::Some(c) => (StyleView { border_color: Option::Some(c), ..cs }, ls),
                Option::None => (cs, ls),
            }
        } else if prop == "border"@ {
            (spec_apply_border(cs, spec_words(val), 0), ls)
        } else if prop == "padding"@ {
            match spec_parse_edges(val) {
                Option::Some(e) => (cs, LayoutStyle { padding: e, ..ls }),
                Option::None => (cs, ls),
            }
        } else if prop == "padding-left"@ {
            match spec_parse_px(val) {
                Option::Some(p) => (
                    cs,
                    LayoutStyle { padding: EdgeValues { left: p, ..ls.padding }, ..ls },
                ),
                Option::None => (cs, ls),
            }
        } else if prop == "padding-right"@ {
            match spec_parse_px(val) {
                Option::Some(p) => (
                    cs,
                    LayoutStyle { padding: EdgeValues { right: p, ..ls.padding }, ..ls },
                ),
                Option::None => (cs, ls),
            }
        } else if prop == "padding-top"@ {
            match spec_parse_px(val) {
                Option::Some(p) => (
                    cs,
                    LayoutStyle { padding: EdgeValues { top: p, ..ls.padding }, ..ls },
                ),
                Option::None => (cs, ls),
            }
        } else if prop == "padding-bottom"@ {
            match spec_parse_px(val) {
                Option::Some(p) => (
                    cs,
                    LayoutStyle { padding: EdgeValues { bottom: p, ..ls.padding }, ..ls },
                ),
                Option::None => (cs, ls),
            }
        } else if prop == "margin"@ {
            match spec_parse_edges(val) {
                Option::Some(e) => (cs, LayoutStyle { margin: e, ..ls }),
                Option::None => (cs, ls),
            }
        } else if prop == "margin-left"@ {
            match spec_parse_px(val) {
                Option::Some(p) => (
                    cs,
                    LayoutStyle { margin: EdgeValues { left: p, ..ls.margin }, ..ls },
                ),
                Option::None => (cs, ls),
            }
        } else if prop == "margin-right"@ {
            match spec_parse_px(val) {
                Option::Some(p) => (
                    cs,
                    LayoutStyle { margin: EdgeValues { right: p, ..ls.margin }, ..ls },
                ),
                Option::None => (cs, ls),
            }
        } else if prop == "margin-top"@ {
            match spec_parse_px(val) {
                Option::Some(p) => (
                    cs,
                    LayoutStyle { margin: EdgeValues { top: p, ..ls.margin }, ..ls },
                ),
                Option::None => (cs, ls),
            }
        } else if prop == "margin-bottom"@ {
            match spec_parse_px(val) {
                Option::Some(p) => (
                    cs,
                    LayoutStyle { margin: EdgeValues { bottom: p, ..ls.margin }, ..ls },
                ),
                Option::None => (cs, ls),
            }
        } else if prop == "width"@ {
            if val.len() > 0 && val[val.len() - 1] == '%' {
                match spec_parse_mille(val.drop_last()) {
                    Option::Some(m) => if m >= 0 {
                        (cs, LayoutStyle { width: Dimension::Percent((m / 100) as u32), ..ls })
                    } else {
                        (cs, ls)
                    },
                    Option::None => (cs, ls),
                }
            } else {
                match spec_parse_px(val) {
                    Option::Some(p) => (cs, LayoutStyle { width: Dimension::Px(p), ..ls }),
                    Option::None => (cs, ls),
                }
            }
        } else if prop == "height"@ {
            match spec_parse_px(val) {
                Option::Some(p) => (cs, LayoutStyle { height: Dimension::Px(p), ..ls }),
                Option::None => (cs, ls),
            }
        } else if prop == "min-height"@ {
            match spec_parse_px(val) {
                Option::Some(p) => (cs, LayoutStyle { min_height: Dimension::Px(p), ..ls }),
                Option::None => (cs, ls),
            }
        } else if prop == "flex-direction"@ {
            if val == "row"@ {
                (cs, LayoutStyle { flex_direction: FlexDirection::Row, ..ls })
            } else if val == "column"@ {
                (cs, LayoutStyle { flex_direction: FlexDirection::Column, ..ls })
            } else if val == "row-reverse"@ {
                (cs, LayoutStyle { flex_direction: FlexDirection::RowReverse, ..ls })
            } else if val == "column-reverse"@ {
                (cs, LayoutStyle { flex_direction: FlexDirection::ColumnReverse, ..ls })
            } else {
                (cs, ls)
            }
        } else if prop == "justify-content"@ {
            if val == "flex-start"@ {
                (cs, LayoutStyle { justify_content: Option::Some(JustifyContent::FlexStart), ..ls })
            } else if val == "flex-end"@ {
                (cs, LayoutStyle { justify_content: Option::Some(JustifyContent::FlexEnd), ..ls })
            } else if val == "center"@ {
                (cs, LayoutStyle { justify_content: Option::Some(JustifyContent::Center), ..ls })
            } else if val == "space-between"@ {
                (
                    cs,
                    LayoutStyle {
                        justify_content: Option::Some(JustifyContent::SpaceBetween),
                        ..ls
                    },
                )
            } else if val == "space-around"@ {
                (
                    cs,
                    LayoutStyle {
                        justify_content: Option::Some(JustifyContent::SpaceAround),
                        ..ls
                    },
                )
            } else if val == "space-evenly"@ {
                (
                    cs,
                    LayoutStyle {
                        justify_content: Option::Some(JustifyContent::SpaceEvenly),
                        ..ls
                    },
                )
            } else {
                (cs, ls)
            }
        } else if prop == "align-items"@ {
            if val == "flex-start"@ {
                (cs, LayoutStyle { align_items: Option::Some(AlignItems::FlexStart), ..ls })
            } else if val == "flex-end"@ {
                (cs, LayoutStyle { align_items: Option::Some(AlignItems::FlexEnd), ..ls })
            } else if val == "center"@ {
                (cs, LayoutStyle { align_items: Option::Some(AlignItems::Center), ..ls })
            } else if val == "baseline"@ {
                (cs, LayoutStyle { align_items: Option::Some(AlignItems::Baseline), ..ls })
            } else if val == "stretch"@ {
                (cs, LayoutStyle { align_items: Option::Some(AlignItems::Stretch), ..ls })
            } else {
                (cs, ls)
            }
        } else if prop == "flex-grow"@ {
            match spec_parse_mille(val) {
                Option::Some(m) => if 0 <= m <= 0xFFFF_FFFF {
                    (cs, LayoutStyle { flex_grow: m as u32, ..ls })
                } else {
                    (cs, ls)
                },
                Option::None => (cs, ls),
            }
        } else if prop == "flex-shrink"@ {
            match spec_parse_mille(val) {
                Option::Some(m) => if 0 <= m <= 0xFFFF_FFFF {
                    (cs, LayoutStyle { flex_shrink: m as u32, ..ls })
                } else {
                    (cs, ls)
                },
                Option::None => (cs, ls),
            }
        } else if prop == "overflow"@ {
            if val == "hidden"@ {
                (StyleView { overflow: Overflow::Hidden, ..cs }, ls)
            } else if val == "scroll"@ || val == "auto"@ {
                (StyleView { overflow: Overflow::Scroll, ..cs }, ls)
            } else if val == "visible"@ {
                (StyleView { overflow: Overflow::Visible, ..cs }, ls)
            } else {
                (cs, ls)
            }
        } else if prop == "position"@ {
            if val == "absolute"@ {
                (cs, LayoutStyle { position: Position::Absolute, ..ls })
            } else if val == "relative"@ {
                (cs, LayoutStyle { position: Position::Relative, ..ls })
            } else {
                (cs, ls)
            }
        } else if prop == "left"@ {
            match spec_parse_px(val) {
                Option::Some(p) => (
                    cs,
                    LayoutStyle {
                        inset: InsetValues { left: InsetValue::Px(p), ..ls.inset },
                        ..ls
                    },
                ),
                Option::None => (cs, ls),
            }
        } else if prop == "right"@ {
            match spec_parse_px(val) {
                Option::Some(p) => (
                    cs,
                    LayoutStyle {
                        inset: InsetValues { right: InsetValue::Px(p), ..ls.inset },
                        ..ls
                    },
                ),
                Option::None => (cs, ls),
            }
        } else if prop == "top"@ {
            match spec_parse_px(val) {
                Option::Some(p) => (
                    cs,
                    LayoutStyle { inset: InsetValues { top: InsetValue::Px(p), ..ls.inset }, ..ls },
                ),
                Option::None => (cs, ls),
            }
        } else if prop == "bottom"@ {
            match spec_parse_px(val) {
                Option::Some(p) => (
                    cs,
                    LayoutStyle {
                        inset: InsetValues { bottom: InsetValue::Px(p), ..ls.inset },
                        ..ls
                    },
                ),
                Option::None => (cs, ls),
            }
        } else {
            (cs, ls)
        }
    }
}

/// The declarations of an inline style, applied left to right.
pub open spec fn spec_apply_decls(
    cs: StyleView,
    ls: LayoutStyle,
    decls: Seq<Seq<char>>,
    i: int,
) -> (StyleView, LayoutStyle)
    decreases decls.len() - i,
{
    if 0 <= i < decls.len() {
        let next = spec_apply_decl(cs, ls, decls[i]);
        spec_apply_decls(next.0, next.1, decls, i + 1)
    } else {
        (cs, ls)
    }
}

/// The effect of a whole inline `style` attribute: its `;`-separated
/// declarations applied in order.
pub open spec fn spec_apply_inline(cs: StyleView, ls: LayoutStyle, s: Seq<char>) -> (
    StyleView,
    LayoutStyle,
) {
    spec_apply_decls(cs, ls, spec_split(s, ';'), 0)
}

/// Apply one declaration to the style pair.
fn apply_decl(style: &mut ContainerStyle, layout: &mut LayoutStyle, d: &[char])
    ensures
        final(style)@ == spec_apply_decl(old(style)@, *old(layout), d@).0,
        *final(layout) == spec_apply_decl(old(style)@, *old(layout), d@).1,
{
    let ci = match find_char(d, 0, ':') {
        Option::Some(i) => {
            proof {
                lemma_char_pos_found(d@, ':', i as int);
            }
            i
        },
        Option::None => {
            proof {
                lemma_char_pos_missing(d@, ':');
            }
            return ;
        },
    };
    let dl = d.len();
    let prop_t = trim_range(d, 0, ci);
    let prop_v = lower(prop_t.as_slice());
    let val_v = trim_range(d, ci + 1, dl);
    proof {
        assert(d@.take(ci as int) =~= d@.subrange(0, ci as int));
        assert(d@.skip(ci + 1 as int) =~= d@.subrange(ci + 1 as int, d@.len() as int));
    }
    let p = prop_v.as_slice();
    let w = val_v.as_slice();
    if chars_eq_str(p, "color") {
        match parse_color_value(w) {
            Option::Some(c) => {
                style.color = c;
            },
            Option::None => {},
        }
    } else if chars_eq_str(p, "background-color") {
        match parse_color_value(w) {
            Option::Some(c) => {
                style.background_color = Option::Some(c);
                style.background_gradient = Option::None;
            },
            Option::None => {},
        }
    } else if chars_eq_str(p, "background") {
        let lit = chars_of("linear-gradient(");
        if starts_with_chars(w, lit.as_slice()) {
            let g = parse_linear_gradient(w);
            style.background_gradient = Option::Some(g);
            style.background_color = Option::None;
        } else {
            match parse_color_value(w) {
                Option::Some(c) => {
                    style.background_color = Option::Some(c);
                    style.background_gradient = Option::None;
                },
                Option::None => {},
            }
        }
    } else if chars_eq_str(p, "font-size") {
        match parse_px(w) {
            Option::Some(px) => {
                if px >= 0 {
                    style.font_size = px as u32;
                }
            },
            Option::None => {},
        }
    } else if chars_eq_str(p, "font-weight") {
        if chars_eq_str(w, "bold") || chars_eq_str(w, "700") || chars_eq_str(w, "800")
            || chars_eq_str(w, "900") {
            style.weight = 1;
        } else {
            style.weight = 0;
        }
    } else if chars_eq_str(p, "border-radius") {
        match parse_px(w) {
            Option::Some(px) => {
                style.border_radius = px;
            },
            Option::None => {
                if chars_eq_str(w, "50%") {
                    style.border_radius = 9999;
                }
            },
        }
    } else if chars_eq_str(p, "border-width") {
        match parse_px(w) {
            Option::Some(px) => {
                style.border_width = px;
            },
            Option::None => {},
        }
    } else if chars_eq_str(p, "border-color") {
        match parse_color_value(w) {
            Option::Some(c) => {
                style.border_color = Option::Some(c);
            },
            Option::None => {},
        }
    } else if chars_eq_str(p, "border") {
        let parts = words(w);
        let ghost pspec = spec_words(w@);
        let n = parts.len();
        let mut i: usize = 0;
        while i < n
            invariant
                i <= n,
                n == pspec.len(),
                parts@.len() == n,
                forall|j: int| 0 <= j < n ==> parts@[j]@ == pspec[j],
                *layout == *old(layout),
                spec_apply_border(style@, pspec, i as int) == spec_apply_border(
                    old(style)@,
                    pspec,
                    0,
                ),
            decreases n - i,
        {
            match parse_px(parts[i].as_slice()) {
                Option::Some(px) => {
                    style.border_width = px;
                },
                Option::None => {
                    match parse_color_value(parts[i].as_slice()) {
                        Option::Some(c) => {
                            style.border_color = Option::Some(c);
                        },
                        Option::None => {},
                    }
                },
            }
            i = i + 1;
        }
    } else if chars_eq_str(p, "padding") {
        match parse_edges(w) {
            Option::Some(e) => {
                layout.padding = e;
            },
            Option::None => {},
        }
    } else if chars_eq_str(p, "padding-left") {
        match parse_px(w) {
            Option::Some(px) => {
                layout.padding.left = px;
            },
            Option::None => {},
        }
    } else if chars_eq_str(p, "padding-right") {
        match parse_px(w) {
            Option::Some(px) => {
                layout.padding.right = px;
            },
            Option::None => {},
        }
    } else if chars_eq_str(p, "padding-top") {
        match parse_px(w) {
            Option::Some(px) => {
                layout.padding.top = px;
            },
            Option::None => {},
        }
    } else if chars_eq_str(p, "padding-bottom") {
        match parse_px(w) {
            Option::Some(px) => {
                layout.padding.bottom = px;
            },
            Option::None => {},
        }
    } else if chars_eq_str(p, "margin") {
        match parse_edges(w) {
            Option::Some(e) => {
                layout.margin = e;
            },
            Option::None => {},
        }
    } else if chars_eq_str(p, "margin-left") {
        match parse_px(w) {
            Option::Some(px) => {
                layout.margin.left = px;
            },
            Option::None => {},
        }
    } else if chars_eq_str(p, "margin-right") {
        match parse_px(w) {
            Option::Some(px) => {
                layout.margin.right = px;
            },
            Option::None => {},
        }
    } else if chars_eq_str(p, "margin-top") {
        match parse_px(w) {
            Option::Some(px) => {
                layout.margin.top = px;
            },
            Option::None => {},
        }
    } else if chars_eq_str(p, "margin-bottom") {
        match parse_px(w) {
            Option::Some(px) => {
                layout.margin.bottom = px;
            },
            Option::None => {},
        }
    } else if chars_eq_str(p, "width") {
        let wl = val_v.len();
        if wl > 0 && w[wl - 1] == '%' {
            let num = subvec(w, 0, wl - 1);
            proof {
                assert(num@ =~= w@.drop_last());
            }
            match parse_mille(num.as_slice()) {
                Option::Some(m) => {
                    if m >= 0 {
                        layout.width = Dimension::Percent((m / 100) as u32);
                    }
                },
                Option::None => {},
            }
        } else {
            match parse_px(w) {
                Option::Some(px) => {
                    layout.width = Dimension::Px(px);
                },
                Option::None => {},
            }
        }
    } else if chars_eq_str(p, "height") {
        match parse_px(w) {
            Option::Some(px) => {
                layout.height = Dimension::Px(px);
            },
            Option::None => {},
        }
    } else if chars_eq_str(p, "min-height") {
        match parse_px(w) {
            Option::Some(px) => {
                layout.min_height = Dimension::Px(px);
            },
            Option::None => {},
        }
    } else if chars_eq_str(p, "flex-direction") {
        if chars_eq_str(w, "row") {
            layout.flex_direction = FlexDirection::Row;
        } else if chars_eq_str(w, "column") {
            layout.flex_direction = FlexDirection::Column;
        } else if chars_eq_str(w, "row-reverse") {
            layout.flex_direction = FlexDirection::RowReverse;
        } else if chars_eq_str(w, "column-reverse") {
            layout.flex_direction = FlexDirection::ColumnReverse;
        }
    } else if chars_eq_str(p, "justify-content") {
        if chars_eq_str(w, "flex-start") {
            layout.justify_content = Option::Some(JustifyContent::FlexStart);
        } else if chars_eq_str(w, "flex-end") {
            layout.justify_content = Option::Some(JustifyContent::FlexEnd);
        } else if chars_eq_str(w, "center") {
            layout.justify_content = Option::Some(JustifyContent::Center);
        } else if chars_eq_str(w, "space-between") {
            layout.justify_content = Option::Some(JustifyContent::SpaceBetween);
        } else if chars_eq_str(w, "space-around") {
            layout.justify_content = Option::Some(JustifyContent::SpaceAround);
        } else if chars_eq_str(w, "space-evenly") {
            layout.justify_content = Option::Some(JustifyContent::SpaceEvenly);
        }
    } else if chars_eq_str(p, "align-items") {
        if chars_eq_str(w, "flex-start") {
            layout.align_items = Option::Some(AlignItems::FlexStart);
        } else if chars_eq_str(w, "flex-end") {
            layout.align_items = Option::Some(AlignItems::FlexEnd);
        } else if chars_eq_str(w, "center") {
            layout.align_items = Option::Some(AlignItems::Center);
        } else if chars_eq_str(w, "baseline") {
            layout.align_items = Option::Some(AlignItems::Baseline);
        } else if chars_eq_str(w, "stretch") {
            layout.align_items = Option::Some(AlignItems::Stretch);
        }
    } else if chars_eq_str(p, "flex-grow") {
        match parse_mille(w) {
            Option::Some(m) => {
                if 0 <= m && m <= 0xFFFF_FFFF {
                    layout.flex_grow = m as u32;
                }
            },
            Option::None => {},
        }
    } else if chars_eq_str(p, "flex-shrink") {
        match parse_mille(w) {
            Option::Some(m) => {
                if 0 <= m && m <= 0xFFFF_FFFF {
                    layout.flex_shrink = m as u32;
                }
            },
            Option::None => {},
        }
    } else if chars_eq_str(p, "overflow") {
        if chars_eq_str(w, "hidden") {
            style.overflow = Overflow::Hidden;
        } else if chars_eq_str(w, "scroll") || chars_eq_str(w, "auto") {
            style.overflow = Overflow::Scroll;
        } else if chars_eq_str(w, "visible") {
            style.overflow = Overflow::Visible;
        }
    } else if chars_eq_str(p, "position") {
        if chars_eq_str(w, "absolute") {
            layout.position = Position::Absolute;
        } else if chars_eq_str(w, "relative") {
            layout.position = Position::Relative;
        }
    } else if chars_eq_str(p, "left") {
        match parse_px(w) {
            Option::Some(px) => {
                layout.inset.left = InsetValue::Px(px);
            },
            Option::None => {},
        }
    } else if chars_eq_str(p, "right") {
        match parse_px(w) {
            Option::Some(px) => {
                layout.inset.right = InsetValue::Px(px);
            },
            Option::None => {},
        }
    } else if chars_eq_str(p, "top") {
        match parse_px(w) {
            Option::Some(px) => {
                layout.inset.top = InsetValue::Px(px);
            },
            Option::None => {},
        }
    } else if chars_eq_str(p, "bottom") {
        match parse_px(w) {
            Option::Some(px) => {
                layout.inset.bottom = InsetValue::Px(px);
            },
            Option::None => {},
        }
    }
}

/// Apply an inline `style` attribute to the paint style and layout
/// constraints: exactly `spec_apply_inline`, declaration by declaration.
pub fn parse_inline_style(style_str: &str, style: &mut ContainerStyle, layout: &mut LayoutStyle)
    ensures
        final(style)@ == spec_apply_inline(old(style)@, *old(layout), style_str@).0,
        *final(layout) == spec_apply_inline(old(style)@, *old(layout), style_str@).1,
{
    let v = chars_of(style_str);
    let decls = split_on(v.as_slice(), ';');
    let ghost dspec = spec_split(style_str@, ';');
    let n = decls.len();
    let mut i: usize = 0;
    while i < n
        invariant
            i <= n,
            n == decls@.len(),
            dspec.len() == n,
            forall|j: int| 0 <= j < n ==> decls@[j]@ == dspec[j],
            spec_apply_decls(style@, *layout, dspec, i as int) == spec_apply_decls(
                old(style)@,
                *old(layout),
                dspec,
                0,
            ),
        decreases n - i,
    {
        apply_decl(style, layout, decls[i].as_slice());
        i = i + 1;
    }
}

} // verus!
