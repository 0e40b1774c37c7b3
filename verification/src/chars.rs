use vstd::prelude::*;
use vstd::std_specs::iter::IteratorSpec;

verus! {

broadcast use vstd::string::next_postcondition, vstd::string::axiom_spec_iter;

/// A whitespace character as the markup text normalizer understands it.
pub open spec fn is_space_char(c: char) -> bool {
    c == ' ' || c == '\t' || c == '\n' || c == '\r' || c == '\u{0c}'
}

/// Whether `c` is an ASCII decimal digit.
pub open spec fn spec_is_digit(c: char) -> bool {
    '0' <= c && c <= '9'
}

/// ASCII-lowercase one character.
pub open spec fn spec_lower_char(c: char) -> char {
    if 'A' <= c && c <= 'Z' {
        ((c as u8) + 32) as char
    } else {
        c
    }
}

/// ASCII-lowercase of a whole sequence.
pub open spec fn spec_lower(s: Seq<char>) -> Seq<char> {
    s.map_values(|c: char| spec_lower_char(c))
}

/// `s` without its leading whitespace.
pub open spec fn trim_front(s: Seq<char>) -> Seq<char>
    decreases s.len(),
{
    if s.len() > 0 && is_space_char(s[0]) {
        trim_front(s.drop_first())
    } else {
        s
    }
}

/// `s` without its trailing whitespace.
pub open spec fn trim_back(s: Seq<char>) -> Seq<char>
    decreases s.len(),
{
    if s.len() > 0 && is_space_char(s[s.len() - 1]) {
        trim_back(s.drop_last())
    } else {
        s
    }
}

/// `s` without leading and trailing whitespace.
pub open spec fn spec_trim(s: Seq<char>) -> Seq<char> {
    trim_back(trim_front(s))
}

/// The characters of `s`, in order.
pub fn chars_of(s: &str) -> (r: Vec<char>)
    ensures
        r@ == s@,
{
    let mut it = s.chars();
    let mut out: Vec<char> = Vec::new();
    loop
        invariant
            it.obeys_prophetic_iter_laws(),
            it.decrease() is Some,
            out@ + it.remaining() == s@,
        ensures
            out@ == s@,
        decreases it.decrease()->0,
    {
        let ghost prev_it = it;
        let ghost prev_out = out@;
        match it.next() {
            Option::Some(c) => {
                out.push(c);
                proof {
                    assert(out@ + it.remaining() =~= prev_out + prev_it.remaining());
                }
            },
            Option::None => {
                proof {
                    assert(out@ + it.remaining() =~= out@);
                }
                break ;
            },
        }
    }
    out
}

/// Whether two character slices hold the same characters.
pub fn chars_eq(a: &[char], b: &[char]) -> (r: bool)
    ensures
        r == (a@ == b@),
{
    if a.len() != b.len() {
        return false;
    }
    let n = a.len();
    let mut i: usize = 0;
    while i < n
        invariant
            n == a@.len(),
            n == b@.len(),
            i <= n,
            forall|j: int| 0 <= j < i ==> a@[j] == b@[j],
        decreases n - i,
    {
        if a[i] != b[i] {
            return false;
        }
        i = i + 1;
    }
    assert(a@ =~= b@);
    true
}

/// Whether the characters of `v` spell exactly the string `s`.
pub fn chars_eq_str(v: &[char], s: &str) -> (r: bool)
    ensures
        r == (v@ == s@),
{
    let sv = chars_of(s);
    chars_eq(v, sv.as_slice())
}

/// Whether two strings hold the same characters.
pub fn str_eq(a: &str, b: &str) -> (r: bool)
    ensures
        r == (a@ == b@),
{
    let av = chars_of(a);
    chars_eq_str(av.as_slice(), b)
}

/// Copy the characters `v[lo..hi]` into a fresh vector.
pub fn subvec(v: &[char], lo: usize, hi: usize) -> (r: Vec<char>)
    requires
        lo <= hi <= v@.len(),
    ensures
        r@ == v@.subrange(lo as int, hi as int),
{
    let mut out: Vec<char> = Vec::new();
    let mut i: usize = lo;
    while i < hi
        invariant
            lo <= i <= hi <= v@.len(),
            out@ == v@.subrange(lo as int, i as int),
        decreases hi - i,
    {
        out.push(v[i]);
        assert(out@ =~= v@.subrange(lo as int, i + 1 as int));
        i = i + 1;
    }
    out
}

/// Whether `c` counts as whitespace.
pub fn is_space(c: char) -> (r: bool)
    ensures
        r == is_space_char(c),
{
    c == ' ' || c == '\t' || c == '\n' || c == '\r' || c == '\u{0c}'
}

/// ASCII-lowercase one character.
pub fn lower_char(c: char) -> (r: char)
    ensures
        r == spec_lower_char(c),
{
    if c >= 'A' && c <= 'Z' {
        ((c as u8) + 32) as char
    } else {
        c
    }
}

/// ASCII-lowercase a character slice.
pub fn lower(v: &[char]) -> (r: Vec<char>)
    ensures
        r@ == spec_lower(v@),
{
    let n = v.len();
    let mut out: Vec<char> = Vec::new();
    let mut i: usize = 0;
    while i < n
        invariant
            n == v@.len(),
            i <= n,
            out@ == v@.subrange(0, i as int).map_values(|c: char| spec_lower_char(c)),
        decreases n - i,
    {
        out.push(lower_char(v[i]));
        assert(out@ =~= v@.subrange(0, i + 1 as int).map_values(
            |c: char| spec_lower_char(c),
        ));
        i = i + 1;
    }
    assert(v@.subrange(0, n as int) =~= v@);
    out
}

/// First occurrence of `c` in `v` at or after `from`, if any.
pub fn find_char(v: &[char], from: usize, c: char) -> (r: Option<usize>)
    requires
        from <= v@.len(),
    ensures
        match r {
            Option::Some(i) => from <= i < v@.len() && v@[i as int] == c && forall|j: int|
                from <= j < i ==> v@[j] != c,
            Option::None => forall|j: int| from <= j < v@.len() ==> v@[j] != c,
        },
{
    let n = v.len();
    let mut i: usize = from;
    while i < n
        invariant
            from <= i <= n,
            n == v@.len(),
            forall|j: int| from <= j < i ==> v@[j] != c,
        decreases n - i,
    {
        if v[i] == c {
            return Option::Some(i);
        }
        i = i + 1;
    }
    Option::None
}

/// Index of the first non-whitespace character at or after `lo`, stopping
/// at `hi`.
fn skip_spaces(v: &[char], lo: usize, hi: usize) -> (r: usize)
    requires
        lo <= hi <= v@.len(),
    ensures
        lo <= r <= hi,
        forall|j: int| lo <= j < r ==> is_space_char(v@[j]),
        r < hi ==> !is_space_char(v@[r as int]),
{
    let mut i: usize = lo;
    while i < hi
        invariant
            lo <= i <= hi <= v@.len(),
            forall|j: int| lo <= j < i ==> is_space_char(v@[j]),
        decreases hi - i,
    {
        if !is_space(v[i]) {
            return i;
        }
        i = i + 1;
    }
    i
}

/// If the first `k` characters of `s` are whitespace, trimming the front
/// discards exactly those `k` characters.
proof fn lemma_trim_front_skip(s: Seq<char>, k: int)
    requires
        0 <= k <= s.len(),
        forall|j: int| 0 <= j < k ==> is_space_char(s[j]),
        k < s.len() ==> !is_space_char(s[k]),
    ensures
        trim_front(s) == s.subrange(k, s.len() as int),
    decreases k,
{
    if k == 0 {
        if s.len() > 0 && is_space_char(s[0]) {
            assert(false);
        }
        assert(s.subrange(0, s.len() as int) =~= s);
    } else {
        assert(is_space_char(s[0]));
        lemma_trim_front_skip(s.drop_first(), k - 1);
        assert(s.drop_first().subrange(k - 1, s.drop_first().len() as int) =~= s.subrange(
            k,
            s.len() as int,
        ));
    }
}

/// If the last characters of `s` from position `k` on are whitespace,
/// trimming the back discards exactly those characters.
proof fn lemma_trim_back_skip(s: Seq<char>, k: int)
    requires
        0 <= k <= s.len(),
        forall|j: int| k <= j < s.len() ==> is_space_char(s[j]),
        k > 0 ==> !is_space_char(s[k - 1]),
    ensures
        trim_back(s) == s.subrange(0, k),
    decreases s.len() - k,
{
    if k == s.len() {
        if s.len() > 0 && is_space_char(s[s.len() - 1]) {
            assert(false);
        }
        assert(s.subrange(0, s.len() as int) =~= s);
    } else {
        assert(is_space_char(s[s.len() - 1]));
        lemma_trim_back_skip(s.drop_last(), k);
        assert(s.drop_last().subrange(0, k) =~= s.subrange(0, k));
    }
}

/// The characters `v[lo..hi]` with surrounding whitespace removed.
pub fn trim_range(v: &[char], lo: usize, hi: usize) -> (r: Vec<char>)
    requires
        lo <= hi <= v@.len(),
    ensures
        r@ == spec_trim(v@.subrange(lo as int, hi as int)),
{
    let start = skip_spaces(v, lo, hi);
    let mut end: usize = hi;
    while end > start
        invariant
            start <= end <= hi <= v@.len(),
            lo <= start,
            forall|j: int| end <= j < hi ==> is_space_char(v@[j]),
        ensures
            start <= end <= hi,
            forall|j: int| end <= j < hi ==> is_space_char(v@[j]),
            end > start ==> !is_space_char(v@[end - 1]),
        decreases end,
    {
        if !is_space(v[end - 1]) {
            break ;
        }
        end = end - 1;
    }
    let out = subvec(v, start, end);
    proof {
        let s = v@.subrange(lo as int, hi as int);
        lemma_trim_front_skip(s, start - lo);
        assert(trim_front(s) =~= v@.subrange(start as int, hi as int));
        if start == end {
            lemma_trim_back_skip(trim_front(s), 0);
        } else {
            lemma_trim_back_skip(trim_front(s), end - start);
        }
        assert(trim_front(s).subrange(0, end - start) =~= v@.subrange(
            start as int,
            end as int,
        ));
    }
    out
}

/// Length of the longest prefix of `s` whose characters all satisfy `p`.
pub open spec fn prefix_len(s: Seq<char>, p: spec_fn(char) -> bool) -> int
    decreases s.len(),
{
    if s.len() > 0 && p(s[0]) {
        1 + prefix_len(s.drop_first(), p)
    } else {
        0
    }
}

/// If the first `k` characters of `s` satisfy `p` and the next one does
/// not, the `p`-prefix of `s` has length exactly `k`.
pub proof fn lemma_prefix_len(s: Seq<char>, p: spec_fn(char) -> bool, k: int)
    requires
        0 <= k <= s.len(),
        forall|j: int| 0 <= j < k ==> p(s[j]),
        k < s.len() ==> !p(s[k]),
    ensures
        prefix_len(s, p) == k,
    decreases k,
{
    if k == 0 {
    } else {
        lemma_prefix_len(s.drop_first(), p, k - 1);
    }
}

/// Position of the first occurrence of `c` in `s`, or `-1`.
pub open spec fn char_pos(s: Seq<char>, c: char) -> int
    decreases s.len(),
{
    if s.len() == 0 {
        -1
    } else if s[0] == c {
        0
    } else {
        let r = char_pos(s.drop_first(), c);
        if r < 0 {
            -1
        } else {
            r + 1
        }
    }
}

/// `char_pos` finds exactly the first occurrence.
pub proof fn lemma_char_pos_found(s: Seq<char>, c: char, i: int)
    requires
        0 <= i < s.len(),
        s[i] == c,
        forall|j: int| 0 <= j < i ==> s[j] != c,
    ensures
        char_pos(s, c) == i,
    decreases i,
{
    if i == 0 {
    } else {
        lemma_char_pos_found(s.drop_first(), c, i - 1);
    }
}

/// Where `c` does not occur, `char_pos` reports `-1`.
pub proof fn lemma_char_pos_missing(s: Seq<char>, c: char)
    requires
        forall|j: int| 0 <= j < s.len() ==> s[j] != c,
    ensures
        char_pos(s, c) == -1,
    decreases s.len(),
{
    if s.len() == 0 {
    } else {
        lemma_char_pos_missing(s.drop_first(), c);
    }
}

/// The pieces of `s` between occurrences of the separator `c`. A sequence
/// without the separator is one piece; every separator ends a piece, so
/// `n` separators give `n + 1` pieces.
pub open spec fn spec_split(s: Seq<char>, c: char) -> Seq<Seq<char>>
    decreases s.len(),
{
    let i = char_pos(s, c);
    if 0 <= i < s.len() {
        seq![s.take(i)] + spec_split(s.skip(i + 1), c)
    } else {
        seq![s]
    }
}

/// Split `v` at every occurrence of `c`.
pub fn split_on(v: &[char], c: char) -> (r: Vec<Vec<char>>)
    ensures
        r@.len() == spec_split(v@, c).len(),
        forall|i: int| 0 <= i < r@.len() ==> r@[i]@ == spec_split(v@, c)[i],
{
    let mut out: Vec<Vec<char>> = Vec::new();
    let mut start: usize = 0;
    let n = v.len();
    proof {
        assert(v@.skip(0) =~= v@);
    }
    loop
        invariant_except_break
            start <= n,
            n == v@.len(),
            spec_split(v@, c) =~= out@.map_values(|piece: Vec<char>| piece@) + spec_split(
                v@.skip(start as int),
                c,
            ),
        ensures
            out@.map_values(|piece: Vec<char>| piece@) =~= spec_split(v@, c),
        decreases n - start,
    {
        let ghost rest = v@.skip(start as int);
        let ghost prev_map = out@.map_values(|piece: Vec<char>| piece@);
        match find_char(v, start, c) {
            Option::Some(i) => {
                let piece = subvec(v, start, i);
                proof {
                    lemma_char_pos_found(rest, c, i - start);
                    assert(piece@ =~= rest.take(i - start));
                    assert(v@.skip(i + 1 as int) =~= rest.skip(i - start + 1));
                }
                out.push(piece);
                start = i + 1;
                proof {
                    assert(out@.map_values(|piece: Vec<char>| piece@) =~= prev_map.push(piece@));
                    assert(out@.map_values(|piece: Vec<char>| piece@) + spec_split(
                        v@.skip(start as int),
                        c,
                    ) =~= prev_map + spec_split(rest, c));
                }
            },
            Option::None => {
                let piece = subvec(v, start, n);
                proof {
                    lemma_char_pos_missing(rest, c);
                    assert(piece@ =~= rest);
                }
                out.push(piece);
                proof {
                    assert(out@.map_values(|piece: Vec<char>| piece@) =~= prev_map.push(piece@));
                    assert(out@.map_values(|piece: Vec<char>| piece@) =~= prev_map + spec_split(
                        rest,
                        c,
                    ));
                }
                break ;
            },
        }
    }
    out
}

/// `trim_front` never lengthens a sequence.
pub proof fn lemma_trim_front_len(s: Seq<char>)
    ensures
        trim_front(s).len() <= s.len(),
    decreases s.len(),
{
    if s.len() > 0 && is_space_char(s[0]) {
        lemma_trim_front_len(s.drop_first());
    }
}

/// The whitespace-separated words of `s`, in order, each nonempty.
pub open spec fn spec_words(s: Seq<char>) -> Seq<Seq<char>>
    decreases s.len(),
{
    let t = trim_front(s);
    if t.len() == 0 {
        Seq::empty()
    } else {
        let k = prefix_len(t, |c: char| !is_space_char(c));
        if 0 < k <= t.len() && t.len() <= s.len() {
            seq![t.take(k)] + spec_words(t.skip(k))
        } else {
            Seq::empty()
        }
    }
}

/// Split `v` into its whitespace-separated words.
pub fn words(v: &[char]) -> (r: Vec<Vec<char>>)
    ensures
        r@.len() == spec_words(v@).len(),
        forall|i: int| 0 <= i < r@.len() ==> r@[i]@ == spec_words(v@)[i],
{
    let mut out: Vec<Vec<char>> = Vec::new();
    let n = v.len();
    let mut pos: usize = 0;
    proof {
        assert(v@.skip(0) =~= v@);
    }
    loop
        invariant_except_break
            pos <= n,
            n == v@.len(),
            spec_words(v@) =~= out@.map_values(|piece: Vec<char>| piece@) + spec_words(
                v@.skip(pos as int),
            ),
        ensures
            out@.map_values(|piece: Vec<char>| piece@) =~= spec_words(v@),
        decreases n - pos,
    {
        let ghost rest = v@.skip(pos as int);
        let ghost prev_map = out@.map_values(|piece: Vec<char>| piece@);
        let start = skip_spaces(v, pos, n);
        proof {
            lemma_trim_front_skip(rest, start - pos);
            assert(trim_front(rest) =~= v@.skip(start as int));
        }
        if start == n {
            proof {
                assert(trim_front(rest).len() == 0);
                assert(spec_words(rest) =~= Seq::<Seq<char>>::empty());
                assert(prev_map + spec_words(rest) =~= prev_map);
            }
            break ;
        }
        let mut end: usize = start;
        while end < n
            invariant
                start <= end <= n,
                n == v@.len(),
                forall|j: int| start <= j < end ==> !is_space_char(v@[j]),
            ensures
                start <= end <= n,
                forall|j: int| start <= j < end ==> !is_space_char(v@[j]),
                end < n ==> is_space_char(v@[end as int]),
            decreases n - end,
        {
            if is_space(v[end]) {
                break ;
            }
            end = end + 1;
        }
        let piece = subvec(v, start, end);
        proof {
            let t = trim_front(rest);
            lemma_prefix_len(t, |c: char| !is_space_char(c), end - start);
            lemma_trim_front_len(rest);
            assert(piece@ =~= t.take(end - start));
            assert(t.skip(end - start) =~= v@.skip(end as int));
            assert(spec_words(rest) =~= seq![piece@] + spec_words(v@.skip(end as int)));
        }
        out.push(piece);
        pos = end;
        proof {
            assert(out@.map_values(|piece: Vec<char>| piece@) =~= prev_map.push(piece@));
            assert(out@.map_values(|piece: Vec<char>| piece@) + spec_words(v@.skip(pos as int))
                =~= prev_map + spec_words(rest));
        }
        if pos == n {
            proof {
                assert(v@.skip(pos as int).len() == 0);
                assert(trim_front(v@.skip(pos as int)).len() == 0);
                assert(spec_words(v@.skip(pos as int)) =~= Seq::<Seq<char>>::empty());
                assert(out@.map_values(|piece: Vec<char>| piece@) + spec_words(
                    v@.skip(pos as int),
                ) =~= out@.map_values(|piece: Vec<char>| piece@));
            }
            break ;
        }
    }
    out
}

/// Trimming the front leaves no leading whitespace.
pub proof fn lemma_trim_front_head(s: Seq<char>)
    ensures
        trim_front(s).len() > 0 ==> !is_space_char(trim_front(s)[0]),
    decreases s.len(),
{
    if s.len() > 0 && is_space_char(s[0]) {
        lemma_trim_front_head(s.drop_first());
    }
}

/// A prefix length never exceeds the sequence length.
pub proof fn lemma_prefix_len_le(s: Seq<char>, p: spec_fn(char) -> bool)
    ensures
        0 <= prefix_len(s, p) <= s.len(),
    decreases s.len(),
{
    if s.len() > 0 && p(s[0]) {
        lemma_prefix_len_le(s.drop_first(), p);
    }
}

/// Every word the splitter yields holds at least one character.
pub proof fn lemma_words_nonempty(s: Seq<char>)
    ensures
        forall|i: int| 0 <= i < spec_words(s).len() ==> (#[trigger] spec_words(s)[i]).len() > 0,
    decreases s.len(),
{
    let t = trim_front(s);
    if t.len() != 0 {
        let k = prefix_len(t, |c: char| !is_space_char(c));
        lemma_trim_front_head(s);
        lemma_prefix_len_le(t, |c: char| !is_space_char(c));
        lemma_prefix_len_le(t.drop_first(), |c: char| !is_space_char(c));
        lemma_trim_front_len(s);
        assert(k > 0);
        if 0 < k <= t.len() && t.len() <= s.len() {
            lemma_words_nonempty(t.skip(k));
            assert(spec_words(s) =~= seq![t.take(k)] + spec_words(t.skip(k)));
            assert(spec_words(s)[0].len() == k);
            assert(forall|i: int|
                1 <= i < spec_words(s).len() ==> spec_words(s)[i] == #[trigger] spec_words(
                    t.skip(k),
                )[i - 1]);
        }
    }
}

/// A fresh `String` spelling exactly the characters of `v`.
///
/// Relies on `String`'s `FromIterator` implementation: collecting a char
/// iterator yields a string holding those characters in order.
#[verifier::external_body]
pub fn string_from_chars(v: &[char]) -> (s: String)
    ensures
        s@ == v@,
{
    v.iter().collect()
}

} // verus!
