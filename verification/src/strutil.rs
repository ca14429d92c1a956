//! Character-level string utilities: trimming, splitting, searching and
//! number parsing, each specified over the `Seq<char>` view of the input.

use vstd::prelude::*;
use vstd::string::StrSliceExecFns;
use vstd::string::StringExecFns;

verus! {

/// ASCII whitespace, the only whitespace the parsers recognise.
pub open spec fn is_space(c: char) -> bool {
    c == ' ' || c == '\t' || c == '\r' || c == '\n'
}

/// ASCII decimal digit.
pub open spec fn is_digit(c: char) -> bool {
    48 <= c as int && c as int <= 57
}

/// Numeric value of an ASCII digit.
pub open spec fn digit_val(c: char) -> nat {
    (c as int - 48) as nat
}

/// The ASCII digit character for a value below ten.
pub open spec fn digit_char(d: nat) -> char {
    ((48 + d) as u8) as char
}

/// Lower-cases one ASCII letter; leaves every other character alone.
pub open spec fn lower_char(c: char) -> char {
    if 65 <= c as int && c as int <= 90 {
        ((c as int + 32) as u8) as char
    } else {
        c
    }
}

/// ASCII lower-casing of a whole sequence.
pub open spec fn lower_seq(s: Seq<char>) -> Seq<char> {
    s.map_values(|c: char| lower_char(c))
}

/// The input without its leading ASCII whitespace.
pub open spec fn trim_front(s: Seq<char>) -> Seq<char>
    decreases s.len(),
{
    if s.len() > 0 && is_space(s[0]) {
        trim_front(s.drop_first())
    } else {
        s
    }
}

/// The input without its trailing ASCII whitespace.
pub open spec fn trim_back(s: Seq<char>) -> Seq<char>
    decreases s.len(),
{
    if s.len() > 0 && is_space(s.last()) {
        trim_back(s.drop_last())
    } else {
        s
    }
}

/// The input without leading and trailing ASCII whitespace.
pub open spec fn spec_trim(s: Seq<char>) -> Seq<char> {
    trim_back(trim_front(s))
}

/// How `spec_split` divides a sequence at every occurrence of a separator,
/// keeping empty pieces, as `str::split` does.
pub open spec fn spec_split(s: Seq<char>, sep: char) -> Seq<Seq<char>>
    decreases s.len(),
{
    if s.len() == 0 {
        seq![Seq::<char>::empty()]
    } else {
        let rest = spec_split(s.drop_first(), sep);
        if s[0] == sep {
            seq![Seq::<char>::empty()] + rest
        } else {
            seq![seq![s[0]] + rest[0]] + rest.drop_first()
        }
    }
}

/// Number of leading characters satisfying `is_digit`.
pub open spec fn digits_prefix_len(s: Seq<char>) -> nat
    decreases s.len(),
{
    if s.len() > 0 && is_digit(s[0]) {
        1 + digits_prefix_len(s.drop_first())
    } else {
        0
    }
}

/// Number of leading characters satisfying `is_space`.
pub open spec fn spaces_prefix_len(s: Seq<char>) -> nat
    decreases s.len(),
{
    if s.len() > 0 && is_space(s[0]) {
        1 + spaces_prefix_len(s.drop_first())
    } else {
        0
    }
}

/// Value of a digit string read in base ten.
pub open spec fn digits_val(s: Seq<char>) -> nat
    decreases s.len(),
{
    if s.len() == 0 {
        0
    } else {
        digits_val(s.drop_last()) * 10 + digit_val(s.last())
    }
}

/// What `parse_u64` returns: the base-ten value of a non-empty all-digit
/// string, if it fits in a `u64`.
pub open spec fn spec_parse_u64(s: Seq<char>) -> Option<u64> {
    if s.len() > 0 && (forall|i: int| 0 <= i < s.len() ==> is_digit(s[i])) && digits_val(s)
        <= u64::MAX {
        Some(digits_val(s) as u64)
    } else {
        None
    }
}

/// Element-wise agreement between a vector of strings and a sequence of
/// character sequences.
pub open spec fn views_match(v: Seq<String>, s: Seq<Seq<char>>) -> bool {
    v.len() == s.len() && forall|i: int| 0 <= i < v.len() ==> #[trigger] v[i]@ == s[i]
}

/// Equality of two string slices, decided character by character.
pub fn str_eq(a: &str, b: &str) -> (r: bool)
    ensures
        r == (a@ == b@),
{
    let n = a.unicode_len();
    let m = b.unicode_len();
    if n != m {
        return false;
    }
    let mut i: usize = 0;
    while i < n
        invariant
            n == a@.len(),
            n == b@.len(),
            0 <= i <= n,
            forall|j: int| 0 <= j < i ==> a@[j] == b@[j],
        decreases n - i,
    {
        if a.get_char(i) != b.get_char(i) {
            return false;
        }
        i += 1;
    }
    proof {
        assert(a@ =~= b@);
    }
    true
}

/// Case-insensitive (ASCII) equality of two string slices.
pub fn str_eq_ignore_case(a: &str, b: &str) -> (r: bool)
    ensures
        r == (lower_seq(a@) == lower_seq(b@)),
{
    let n = a.unicode_len();
    let m = b.unicode_len();
    if n != m {
        proof {
            assert(lower_seq(a@).len() != lower_seq(b@).len());
        }
        return false;
    }
    let mut i: usize = 0;
    while i < n
        invariant
            n == a@.len(),
            n == b@.len(),
            0 <= i <= n,
            forall|j: int| 0 <= j < i ==> lower_char(a@[j]) == lower_char(b@[j]),
        decreases n - i,
    {
        let ca = a.get_char(i) as u32;
        let cb = b.get_char(i) as u32;
        let la = if 65 <= ca && ca <= 90 {
            ca + 32
        } else {
            ca
        };
        let lb = if 65 <= cb && cb <= 90 {
            cb + 32
        } else {
            cb
        };
        if la != lb {
            proof {
                assert(lower_seq(a@)[i as int] != lower_seq(b@)[i as int]);
            }
            return false;
        }
        i += 1;
    }
    proof {
        assert(lower_seq(a@) =~= lower_seq(b@));
    }
    true
}

/// Index of the first occurrence of a character, if any.
pub fn find_char(s: &str, sep: char) -> (r: Option<usize>)
    ensures
        match r {
            Some(i) => i < s@.len() && s@[i as int] == sep && forall|j: int|
                0 <= j < i ==> s@[j] != sep,
            None => forall|j: int| 0 <= j < s@.len() ==> s@[j] != sep,
        },
{
    let n = s.unicode_len();
    let mut i: usize = 0;
    while i < n
        invariant
            n == s@.len(),
            0 <= i <= n,
            forall|j: int| 0 <= j < i ==> s@[j] != sep,
        decreases n - i,
    {
        if s.get_char(i) == sep {
            return Some(i);
        }
        i += 1;
    }
    None
}

/// Copies a slice of the input characters into an owned string.
pub fn substr(s: &str, from: usize, to: usize) -> (r: String)
    requires
        from <= to <= s@.len(),
    ensures
        r@ == s@.subrange(from as int, to as int),
{
    s.substring_char(from, to).to_owned()
}

/// `spec_split` agrees with cutting at the first separator occurrence.
proof fn lemma_split_at_first(s: Seq<char>, sep: char, i: int)
    requires
        0 <= i < s.len(),
        s[i] == sep,
        forall|j: int| 0 <= j < i ==> s[j] != sep,
    ensures
        spec_split(s, sep) == seq![s.subrange(0, i)] + spec_split(
            s.subrange(i + 1, s.len() as int),
            sep,
        ),
    decreases s.len(),
{
    if i == 0 {
        assert(s.subrange(0, 0) =~= Seq::<char>::empty());
        assert(s.subrange(1, s.len() as int) =~= s.drop_first());
        assert(spec_split(s, sep) =~= seq![s.subrange(0, 0)] + spec_split(
            s.subrange(1, s.len() as int),
            sep,
        ));
    } else {
        let t = s.drop_first();
        assert(t[i - 1] == sep);
        lemma_split_at_first(t, sep, i - 1);
        assert(t.subrange(0, i - 1) =~= s.subrange(1, i));
        assert(t.subrange(i, t.len() as int) =~= s.subrange(i + 1, s.len() as int));
        let rest = spec_split(t, sep);
        assert(rest[0] == s.subrange(1, i));
        assert(seq![s[0]] + s.subrange(1, i) =~= s.subrange(0, i));
        assert(spec_split(s, sep) =~= seq![s.subrange(0, i)] + spec_split(
            s.subrange(i + 1, s.len() as int),
            sep,
        ));
    }
}

/// `spec_split` of a separator-free sequence is that sequence alone.
proof fn lemma_split_no_sep(s: Seq<char>, sep: char)
    requires
        forall|j: int| 0 <= j < s.len() ==> s[j] != sep,
    ensures
        spec_split(s, sep) == seq![s],
    decreases s.len(),
{
    if s.len() > 0 {
        lemma_split_no_sep(s.drop_first(), sep);
        assert(seq![s[0]] + s.drop_first() =~= s);
        assert(spec_split(s, sep) =~= seq![s]);
    } else {
        assert(s =~= Seq::<char>::empty());
        assert(spec_split(s, sep) =~= seq![s]);
    }
}

/// Splits on every occurrence of a separator, keeping empty pieces.
pub fn split(s: &str, sep: char) -> (r: Vec<String>)
    ensures
        views_match(r@, spec_split(s@, sep)),
    decreases s@.len(),
{
    let n = s.unicode_len();
    match find_char(s, sep) {
        Some(i) => {
            let piece = substr(s, 0, i);
            let rest = s.substring_char(i + 1, n);
            let mut r = split(rest, sep);
            r.insert(0, piece);
            proof {
                lemma_split_at_first(s@, sep, i as int);
            }
            r
        },
        None => {
            let mut r: Vec<String> = Vec::new();
            r.push(s.to_owned());
            proof {
                lemma_split_no_sep(s@, sep);
            }
            r
        },
    }
}

/// Number of leading characters other than `sep`.
pub open spec fn until_char_len(s: Seq<char>, sep: char) -> nat
    decreases s.len(),
{
    if s.len() > 0 && s[0] != sep {
        1 + until_char_len(s.drop_first(), sep)
    } else {
        0
    }
}

/// `until_char_len` is exactly the index of the first occurrence.
pub proof fn lemma_until_char_exact(s: Seq<char>, sep: char, i: int)
    requires
        0 <= i <= s.len(),
        forall|j: int| 0 <= j < i ==> s[j] != sep,
        i < s.len() ==> s[i] == sep,
    ensures
        until_char_len(s, sep) == i,
    decreases i,
{
    if i == 0 {
    } else {
        lemma_until_char_exact(s.drop_first(), sep, i - 1);
    }
}

/// How `split_once` divides a sequence: at the first occurrence of the
/// separator, if there is one.
pub open spec fn spec_split_once(s: Seq<char>, sep: char) -> Option<(Seq<char>, Seq<char>)> {
    let i = until_char_len(s, sep) as int;
    if i < s.len() {
        Some((s.subrange(0, i), s.subrange(i + 1, s.len() as int)))
    } else {
        None
    }
}

/// Splits at the first occurrence of a separator, if there is one.
pub fn split_once(s: &str, sep: char) -> (r: Option<(String, String)>)
    ensures
        match (r, spec_split_once(s@, sep)) {
            (Some(p), Some(q)) => p.0@ == q.0 && p.1@ == q.1,
            (None, None) => true,
            _ => false,
        },
{
    let n = s.unicode_len();
    match find_char(s, sep) {
        Some(i) => {
            proof {
                lemma_until_char_exact(s@, sep, i as int);
            }
            Some((substr(s, 0, i), substr(s, i + 1, n)))
        },
        None => {
            proof {
                lemma_until_char_exact(s@, sep, s@.len() as int);
            }
            None
        },
    }
}

/// Removes leading and trailing ASCII whitespace.
pub fn trim(s: &str) -> (r: String)
    ensures
        r@ == spec_trim(s@),
{
    let n = s.unicode_len();
    let mut lo: usize = 0;
    while lo < n && is_space_exec(s.get_char(lo))
        invariant
            n == s@.len(),
            0 <= lo <= n,
            forall|j: int| 0 <= j < lo ==> is_space(s@[j]),
        decreases n - lo,
    {
        lo += 1;
    }
    let mut hi: usize = n;
    while hi > lo && is_space_exec(s.get_char(hi - 1))
        invariant
            n == s@.len(),
            0 <= lo <= hi <= n,
            forall|j: int| 0 <= j < lo ==> is_space(s@[j]),
            forall|j: int| hi <= j < n ==> is_space(s@[j]),
        decreases hi,
    {
        hi -= 1;
    }
    proof {
        lemma_trim_front_range(s@, lo as int);
        let t = trim_front(s@);
        assert(t =~= s@.subrange(lo as int, n as int));
        lemma_trim_back_range(t, (hi - lo) as int);
        assert(trim_back(t) =~= s@.subrange(lo as int, hi as int));
    }
    substr(s, lo, hi)
}

/// Whether one character is ASCII whitespace.
pub fn is_space_exec(c: char) -> (r: bool)
    ensures
        r == is_space(c),
{
    c == ' ' || c == '\t' || c == '\r' || c == '\n'
}

/// `trim_front` removes exactly the leading run of whitespace.
proof fn lemma_trim_front_range(s: Seq<char>, lo: int)
    requires
        0 <= lo <= s.len(),
        forall|j: int| 0 <= j < lo ==> is_space(s[j]),
        lo < s.len() ==> !is_space(s[lo]),
    ensures
        trim_front(s) == s.subrange(lo, s.len() as int),
    decreases lo,
{
    if lo == 0 {
        if s.len() > 0 && is_space(s[0]) {
            assert(false);
        }
        assert(trim_front(s) =~= s.subrange(0, s.len() as int));
    } else {
        let t = s.drop_first();
        lemma_trim_front_range(t, lo - 1);
        assert(t.subrange(lo - 1, t.len() as int) =~= s.subrange(lo, s.len() as int));
    }
}

/// `trim_back` removes exactly the trailing run of whitespace.
proof fn lemma_trim_back_range(s: Seq<char>, hi: int)
    requires
        0 <= hi <= s.len(),
        forall|j: int| hi <= j < s.len() ==> is_space(s[j]),
        hi > 0 ==> !is_space(s[hi - 1]),
    ensures
        trim_back(s) == s.subrange(0, hi),
    decreases s.len() - hi,
{
    if hi == s.len() {
        if s.len() > 0 && is_space(s.last()) {
            assert(false);
        }
        assert(trim_back(s) =~= s.subrange(0, hi));
    } else {
        let t = s.drop_last();
        assert(forall|j: int| hi <= j < t.len() ==> is_space(t[j]));
        lemma_trim_back_range(t, hi);
        assert(t.subrange(0, hi) =~= s.subrange(0, hi));
    }
}

/// Whether one character is an ASCII digit.
pub fn is_digit_exec(c: char) -> (r: bool)
    ensures
        r == is_digit(c),
{
    let u = c as u32;
    48 <= u && u <= 57
}

/// `digits_prefix_len` is exactly the index of the first non-digit.
pub proof fn lemma_digits_prefix_exact(s: Seq<char>, i: int)
    requires
        0 <= i <= s.len(),
        forall|j: int| 0 <= j < i ==> is_digit(s[j]),
        i < s.len() ==> !is_digit(s[i]),
    ensures
        digits_prefix_len(s) == i,
    decreases i,
{
    if i == 0 {
    } else {
        let t = s.drop_first();
        lemma_digits_prefix_exact(t, i - 1);
    }
}

/// `spaces_prefix_len` is exactly the index of the first non-space.
pub proof fn lemma_spaces_prefix_exact(s: Seq<char>, i: int)
    requires
        0 <= i <= s.len(),
        forall|j: int| 0 <= j < i ==> is_space(s[j]),
        i < s.len() ==> !is_space(s[i]),
    ensures
        spaces_prefix_len(s) == i,
    decreases i,
{
    if i == 0 {
    } else {
        let t = s.drop_first();
        lemma_spaces_prefix_exact(t, i - 1);
    }
}

/// Prefixes of a digit string never exceed its full value.
pub proof fn lemma_digits_val_prefix_le(s: Seq<char>, i: int)
    requires
        0 <= i <= s.len(),
        forall|j: int| 0 <= j < s.len() ==> is_digit(s[j]),
    ensures
        digits_val(s.subrange(0, i)) <= digits_val(s),
    decreases s.len() - i,
{
    if i == s.len() {
        assert(s.subrange(0, i) =~= s);
    } else {
        let p = s.subrange(0, i);
        let q = s.subrange(0, i + 1);
        assert(q.drop_last() =~= p);
        assert(digits_val(q) == digits_val(p) * 10 + digit_val(s[i]));
        lemma_digits_val_prefix_le(s, i + 1);
    }
}

/// Parses a non-empty all-digit string into a `u64`.
pub fn parse_u64(s: &str) -> (r: Option<u64>)
    ensures
        r == spec_parse_u64(s@),
{
    let n = s.unicode_len();
    if n == 0 {
        return None;
    }
    let mut acc: u64 = 0;
    let mut i: usize = 0;
    while i < n
        invariant
            n == s@.len(),
            0 <= i <= n,
            forall|j: int| 0 <= j < i ==> is_digit(s@[j]),
            acc == digits_val(s@.subrange(0, i as int)),
        decreases n - i,
    {
        let c = s.get_char(i) as u32;
        if !(48 <= c && c <= 57) {
            return None;
        }
        let d = (c - 48) as u64;
        let wide: u128 = (acc as u128) * 10 + (d as u128);
        if wide > u64::MAX as u128 {
            proof {
                assert(s@.subrange(0, i as int + 1).drop_last() =~= s@.subrange(0, i as int));
                assert(digits_val(s@.subrange(0, i as int + 1)) > u64::MAX);
                if forall|j: int| 0 <= j < s@.len() ==> is_digit(s@[j]) {
                    lemma_digits_val_prefix_le(s@, i as int + 1);
                }
            }
            return None;
        }
        acc = wide as u64;
        proof {
            assert(s@.subrange(0, i as int + 1).drop_last() =~= s@.subrange(0, i as int));
        }
        i += 1;
    }
    proof {
        assert(s@.subrange(0, n as int) =~= s@);
    }
    Some(acc)
}

/// Drops one trailing carriage return, as `str::lines` does.
pub open spec fn strip_cr(l: Seq<char>) -> Seq<char> {
    if l.len() > 0 && l.last() == '\r' {
        l.drop_last()
    } else {
        l
    }
}

/// How `lines` divides text: split on newlines, drop a final empty piece,
/// and strip one trailing carriage return from each line.
pub open spec fn spec_lines(s: Seq<char>) -> Seq<Seq<char>> {
    let parts = spec_split(s, '\n');
    let kept = if parts.len() > 0 && parts.last().len() == 0 {
        parts.drop_last()
    } else {
        parts
    };
    kept.map_values(|l: Seq<char>| strip_cr(l))
}

/// Splits text into lines, mirroring `str::lines`.
pub fn lines(s: &str) -> (r: Vec<String>)
    ensures
        views_match(r@, spec_lines(s@)),
{
    let mut parts = split(s, '\n');
    if parts.len() > 0 && parts[parts.len() - 1].as_str().is_empty() {
        parts.pop();
    }
    let ghost kept = {
        let ps = spec_split(s@, '\n');
        if ps.len() > 0 && ps.last().len() == 0 {
            ps.drop_last()
        } else {
            ps
        }
    };
    proof {
        assert(views_match(parts@, kept));
    }
    let mut out: Vec<String> = Vec::new();
    let mut i: usize = 0;
    while i < parts.len()
        invariant
            views_match(parts@, kept),
            0 <= i <= parts.len(),
            out@.len() == i,
            forall|j: int| 0 <= j < i ==> #[trigger] out@[j]@ == strip_cr(kept[j]),
        decreases parts.len() - i,
    {
        let piece: &String = &parts[i];
        let m = piece.as_str().unicode_len();
        if m > 0 && piece.as_str().get_char(m - 1) == '\r' {
            let clipped = substr(piece.as_str(), 0, m - 1);
            proof {
                assert(piece@.subrange(0, m - 1) =~= piece@.drop_last());
            }
            out.push(clipped);
        } else {
            out.push(piece.clone());
        }
        i += 1;
    }
    proof {
        assert(views_match(out@, spec_lines(s@)));
    }
    out
}

/// How `split_whitespace` divides text: maximal runs of non-whitespace.
pub open spec fn spec_split_ws(s: Seq<char>) -> Seq<Seq<char>>
    decreases s.len(),
{
    if s.len() == 0 {
        Seq::<Seq<char>>::empty()
    } else if is_space(s[0]) {
        spec_split_ws(s.drop_first())
    } else {
        let r = spec_split_ws(s.drop_first());
        if s.len() > 1 && !is_space(s[1]) {
            seq![seq![s[0]] + r[0]] + r.drop_first()
        } else {
            seq![seq![s[0]]] + r
        }
    }
}

/// Leading whitespace does not change `spec_split_ws`.
proof fn lemma_split_ws_skip(s: Seq<char>, lo: int)
    requires
        0 <= lo <= s.len(),
        forall|j: int| 0 <= j < lo ==> is_space(s[j]),
    ensures
        spec_split_ws(s) == spec_split_ws(s.subrange(lo, s.len() as int)),
    decreases lo,
{
    if lo == 0 {
        assert(s.subrange(0, s.len() as int) =~= s);
    } else {
        let t = s.drop_first();
        lemma_split_ws_skip(t, lo - 1);
        assert(t.subrange(lo - 1, t.len() as int) =~= s.subrange(lo, s.len() as int));
    }
}

/// `spec_split_ws` cuts off the first maximal word.
proof fn lemma_split_ws_word(s: Seq<char>, hi: int)
    requires
        1 <= hi <= s.len(),
        forall|j: int| 0 <= j < hi ==> !is_space(s[j]),
        hi < s.len() ==> is_space(s[hi]),
    ensures
        spec_split_ws(s) == seq![s.subrange(0, hi)] + spec_split_ws(
            s.subrange(hi, s.len() as int),
        ),
    decreases hi,
{
    let t = s.drop_first();
    if hi == 1 {
        if s.len() == 1 {
            assert(s.subrange(0, 1) =~= seq![s[0]]);
            assert(s.subrange(1, 1) =~= Seq::<char>::empty());
            assert(spec_split_ws(s) =~= seq![s.subrange(0, 1)] + spec_split_ws(
                s.subrange(1, s.len() as int),
            ));
        } else {
            assert(is_space(s[1]));
            assert(t =~= s.subrange(1, s.len() as int));
            assert(s.subrange(0, 1) =~= seq![s[0]]);
            assert(spec_split_ws(s) =~= seq![s.subrange(0, 1)] + spec_split_ws(
                s.subrange(1, s.len() as int),
            ));
        }
    } else {
        assert(!is_space(s[1]));
        assert(forall|j: int| 0 <= j < hi - 1 ==> !is_space(t[j]));
        assert(hi - 1 < t.len() ==> is_space(t[hi - 1]));
        lemma_split_ws_word(t, hi - 1);
        let r = spec_split_ws(t);
        assert(r[0] == t.subrange(0, hi - 1));
        assert(seq![s[0]] + t.subrange(0, hi - 1) =~= s.subrange(0, hi));
        assert(r.drop_first() == spec_split_ws(t.subrange(hi - 1, t.len() as int)));
        assert(t.subrange(hi - 1, t.len() as int) =~= s.subrange(hi, s.len() as int));
        assert(spec_split_ws(s) =~= seq![s.subrange(0, hi)] + spec_split_ws(
            s.subrange(hi, s.len() as int),
        ));
    }
}

/// Splits text on runs of ASCII whitespace, discarding the whitespace.
pub fn split_whitespace(s: &str) -> (r: Vec<String>)
    ensures
        views_match(r@, spec_split_ws(s@)),
    decreases s@.len(),
{
    let n = s.unicode_len();
    let mut lo: usize = 0;
    while lo < n && is_space_exec(s.get_char(lo))
        invariant
            n == s@.len(),
            0 <= lo <= n,
            forall|j: int| 0 <= j < lo ==> is_space(s@[j]),
        decreases n - lo,
    {
        lo += 1;
    }
    if lo == n {
        proof {
            lemma_split_ws_skip(s@, lo as int);
            assert(s@.subrange(lo as int, n as int) =~= Seq::<char>::empty());
        }
        return Vec::new();
    }
    let mut hi: usize = lo;
    while hi < n && !is_space_exec(s.get_char(hi))
        invariant
            n == s@.len(),
            0 <= lo <= hi <= n,
            forall|j: int| lo <= j < hi ==> !is_space(s@[j]),
        decreases n - hi,
    {
        hi += 1;
    }
    let piece = substr(s, lo, hi);
    let rest = s.substring_char(hi, n);
    let mut r = split_whitespace(rest);
    r.insert(0, piece);
    proof {
        lemma_split_ws_skip(s@, lo as int);
        let u = s@.subrange(lo as int, n as int);
        assert(forall|j: int| 0 <= j < hi - lo ==> !is_space(u[j]));
        lemma_split_ws_word(u, hi - lo);
        assert(u.subrange(0, hi - lo) =~= s@.subrange(lo as int, hi as int));
        assert(u.subrange(hi - lo, u.len() as int) =~= s@.subrange(hi as int, n as int));
    }
    r
}

/// Whether `s` begins with the characters of `p`.
pub fn has_prefix(s: &str, p: &str) -> (r: bool)
    ensures
        r == (s@.len() >= p@.len() && s@.subrange(0, p@.len() as int) == p@),
{
    let n = s.unicode_len();
    let m = p.unicode_len();
    if n < m {
        return false;
    }
    let head = s.substring_char(0, m);
    str_eq(head, p)
}

/// Whether `s` ends with the characters of `p`.
pub fn has_suffix(s: &str, p: &str) -> (r: bool)
    ensures
        r == (s@.len() >= p@.len() && s@.subrange(
            s@.len() - p@.len(),
            s@.len() as int,
        ) == p@),
{
    let n = s.unicode_len();
    let m = p.unicode_len();
    if n < m {
        return false;
    }
    let tail = s.substring_char(n - m, n);
    str_eq(tail, p)
}

} // verus!
