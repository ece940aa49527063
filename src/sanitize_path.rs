use vstd::prelude::*;
use vstd::utf8::{char_is_scalar, encode_scalar, encode_utf8};

verus! {

/// Character that stands in for every banned character unless the caller picks another.
pub const DEFAULT_REPLACEMENT: char = '!';

/// Upper bound, in UTF-8 bytes, on the length of a sanitised name.
pub const MAX_FILENAME_LENGTH: usize = 248;

/// The file systems whose naming rules a sanitised name must obey.
#[derive(Clone, Copy, Debug, PartialEq, Eq, Structural)]
pub enum OsTarget {
    Windows,
    Unix,
    All,
}

// ---------------------------------------------------------------------------
// Model
// ---------------------------------------------------------------------------

/// Number of bytes that UTF-8 spends on `c`.
pub open spec fn utf8_width(c: char) -> nat {
    if (c as u32) < 0x80 {
        1
    } else if (c as u32) < 0x800 {
        2
    } else if (c as u32) < 0x10000 {
        3
    } else {
        4
    }
}

/// Length in UTF-8 bytes of a character sequence.
pub open spec fn byte_len(s: Seq<char>) -> nat
    decreases s.len(),
{
    if s.len() == 0 {
        0
    } else {
        byte_len(s.drop_last()) + utf8_width(s.last())
    }
}

/// Number of leading characters of `s` whose encoding fits in `limit` bytes.
pub open spec fn fitting_prefix_len(s: Seq<char>, limit: nat) -> nat
    decreases s.len(),
{
    if byte_len(s) <= limit {
        s.len()
    } else {
        fitting_prefix_len(s.drop_last(), limit)
    }
}

/// The longest prefix of `s` that fits in the filename bound.
pub open spec fn truncated(s: Seq<char>) -> Seq<char> {
    s.take(fitting_prefix_len(s, MAX_FILENAME_LENGTH as nat) as int)
}

/// Characters that Windows refuses in a file name.
pub open spec fn is_windows_banned(c: char) -> bool {
    c == '<' || c == '>' || c == ':' || c == '"' || c == '/' || c == '\\' || c == '*' || c
        == '|' || c == '?' || (c as u32) < 0x20
}

/// Characters that Unix refuses in a file name.
pub open spec fn is_unix_banned(c: char) -> bool {
    c == '/' || c == '\0'
}

/// White space as `str::trim` understands it (the Unicode White_Space property).
pub open spec fn is_white_space(c: char) -> bool {
    let u = c as u32;
    (0x09 <= u && u <= 0x0d) || u == 0x20 || u == 0x85 || u == 0xa0 || u == 0x1680 || (0x2000
        <= u && u <= 0x200a) || u == 0x2028 || u == 0x2029 || u == 0x202f || u == 0x205f || u
        == 0x3000
}

/// The DOS device names: CON, PRN, AUX, NUL, COM1 to COM9 and LPT1 to LPT9.
pub open spec fn is_reserved_name(n: Seq<char>) -> bool {
    (n.len() == 3 && (starts3(n, 'C', 'O', 'N') || starts3(n, 'P', 'R', 'N') || starts3(
        n,
        'A',
        'U',
        'X',
    ) || starts3(n, 'N', 'U', 'L'))) || (n.len() == 4 && (starts3(n, 'C', 'O', 'M') || starts3(
        n,
        'L',
        'P',
        'T',
    )) && '1' <= n[3] && n[3] <= '9')
}

/// `n` begins with the three characters `x`, `y`, `z`.
pub open spec fn starts3(n: Seq<char>, x: char, y: char, z: char) -> bool {
    n.len() >= 3 && n[0] == x && n[1] == y && n[2] == z
}

/// End of the part of `t` that holds the trailing component: a final `..`, or else a
/// final `/`, is left out.
pub open spec fn component_end(t: Seq<char>) -> int {
    if t.len() >= 2 && t[t.len() - 1] == '.' && t[t.len() - 2] == '.' {
        t.len() - 2
    } else if t.len() >= 1 && t[t.len() - 1] == '/' {
        t.len() - 1
    } else {
        t.len() as int
    }
}

/// Index just after the last `/` before `e`, or 0.
pub open spec fn component_start(t: Seq<char>, e: int) -> int
    decreases e,
{
    if e <= 0 {
        0
    } else if t[e - 1] == '/' {
        e
    } else {
        component_start(t, e - 1)
    }
}

/// Index of the first `.` in `t[i..e]`, or `e`: the end of the component's stem.
pub open spec fn stem_end(t: Seq<char>, i: int, e: int) -> int
    decreases e - i,
{
    if i >= e {
        e
    } else if t[i] == '.' {
        i
    } else {
        stem_end(t, i + 1, e)
    }
}

/// Index of the first character of `t[i..e]` that is not white space, or `e`.
pub open spec fn skip_white_space(t: Seq<char>, i: int, e: int) -> int
    decreases e - i,
{
    if i >= e {
        e
    } else if is_white_space(t[i]) {
        skip_white_space(t, i + 1, e)
    } else {
        i
    }
}

/// End of `t[a..e]` once its trailing white space is left out.
pub open spec fn trim_end(t: Seq<char>, a: int, e: int) -> int
    decreases e - a,
{
    if e <= a {
        a
    } else if is_white_space(t[e - 1]) {
        trim_end(t, a, e - 1)
    } else {
        e
    }
}

/// Where the trailing component's trimmed stem ends, when that stem is a reserved
/// device name: the place where the marker goes.
pub open spec fn reserved_mark(t: Seq<char>) -> Option<int> {
    let e = component_end(t);
    let st = component_start(t, e);
    let se = stem_end(t, st, e);
    let a = skip_white_space(t, st, se);
    let b = trim_end(t, a, se);
    if is_reserved_name(t.subrange(a, b)) {
        Some(b)
    } else {
        None
    }
}

/// `t` with a `!` after a reserved device name in its trailing component.
pub open spec fn mark_reserved(t: Seq<char>) -> Seq<char> {
    match reserved_mark(t) {
        Some(b) => t.insert(b, '!'),
        None => t,
    }
}

/// `t` with every character that Windows refuses replaced by `r`.
pub open spec fn replace_windows_banned(t: Seq<char>, r: char) -> Seq<char> {
    t.map_values(|c: char| if is_windows_banned(c) { r } else { c })
}

/// `t` with every character that Unix refuses replaced by `r`.
pub open spec fn replace_unix_banned(t: Seq<char>, r: char) -> Seq<char> {
    t.map_values(|c: char| if is_unix_banned(c) { r } else { c })
}

/// The Windows rules on an already truncated name.
pub open spec fn windows_rules(t: Seq<char>, r: char) -> Seq<char> {
    replace_windows_banned(mark_reserved(t), r)
}

/// What `sanitize` returns.
pub open spec fn sanitized(s: Seq<char>, r: char, target: OsTarget) -> Seq<char> {
    let t = truncated(s);
    match target {
        OsTarget::Windows => windows_rules(t, r),
        OsTarget::Unix => replace_unix_banned(t, r),
        OsTarget::All => replace_unix_banned(windows_rules(t, r), r),
    }
}

/// What `sanitize` returns with the default replacement and both targets.
pub open spec fn sanitized_default(s: Seq<char>) -> Seq<char> {
    sanitized(s, DEFAULT_REPLACEMENT, OsTarget::All)
}

// ---------------------------------------------------------------------------
// Lemmas on byte lengths
// ---------------------------------------------------------------------------

proof fn lemma_byte_len_prefix_monotone(s: Seq<char>, i: int, j: int)
    requires
        0 <= i <= j <= s.len(),
    ensures
        byte_len(s.take(i)) <= byte_len(s.take(j)),
    decreases j - i,
{
    if i < j {
        lemma_byte_len_prefix_monotone(s, i, j - 1);
        assert(s.take(j).drop_last() =~= s.take(j - 1));
    }
}

/// A prefix that fits, and that one more character would overflow, is the longest
/// fitting prefix.
proof fn lemma_fitting_prefix_unique(s: Seq<char>, limit: nat, k: int)
    requires
        0 <= k <= s.len(),
        byte_len(s.take(k)) <= limit,
        k == s.len() || byte_len(s.take(k + 1)) > limit,
    ensures
        fitting_prefix_len(s, limit) == k,
    decreases s.len(),
{
    assert(s.take(s.len() as int) =~= s);
    if byte_len(s) <= limit {
        if k < s.len() {
            lemma_byte_len_prefix_monotone(s, k + 1, s.len() as int);
        }
    } else {
        let d = s.drop_last();
        assert(d.take(k) =~= s.take(k));
        if k < d.len() {
            assert(d.take(k + 1) =~= s.take(k + 1));
        } else {
            assert(d.take(k) =~= d);
        }
        lemma_fitting_prefix_unique(d, limit, k);
    }
}

proof fn lemma_byte_len_concat(a: Seq<char>, b: Seq<char>)
    ensures
        byte_len(a + b) == byte_len(a) + byte_len(b),
    decreases b.len(),
{
    if b.len() == 0 {
        assert(a + b =~= a);
    } else {
        lemma_byte_len_concat(a, b.drop_last());
        assert((a + b).drop_last() =~= a + b.drop_last());
    }
}

/// `byte_len` is the length of the UTF-8 encoding.
pub proof fn lemma_byte_len_is_encoded_len(s: Seq<char>)
    ensures
        byte_len(s) == encode_utf8(s).len(),
    decreases s.len(),
{
    if s.len() > 0 {
        let c = s[0];
        let rest = s.drop_first();
        lemma_byte_len_is_encoded_len(rest);
        char_is_scalar(c);
        assert(encode_scalar(c as u32).len() == utf8_width(c));
        let one = seq![c];
        assert(byte_len(one) == utf8_width(c)) by {
            assert(one.drop_last() =~= Seq::<char>::empty());
            assert(byte_len(Seq::<char>::empty()) == 0);
        }
        assert(s =~= one + rest);
        lemma_byte_len_concat(one, rest);
    }
}

/// Two sequences whose characters pair up with equal widths have equal byte lengths.
proof fn lemma_byte_len_same_widths(s: Seq<char>, u: Seq<char>)
    requires
        s.len() == u.len(),
        forall|i: int| 0 <= i < s.len() ==> utf8_width(#[trigger] s[i]) == utf8_width(u[i]),
    ensures
        byte_len(s) == byte_len(u),
    decreases s.len(),
{
    if s.len() > 0 {
        lemma_byte_len_same_widths(s.drop_last(), u.drop_last());
    }
}

proof fn lemma_truncated_fits(s: Seq<char>, limit: nat)
    ensures
        fitting_prefix_len(s, limit) <= s.len(),
        byte_len(s.take(fitting_prefix_len(s, limit) as int)) <= limit,
    decreases s.len(),
{
    if byte_len(s) <= limit {
        assert(s.take(s.len() as int) =~= s);
    } else {
        let d = s.drop_last();
        lemma_truncated_fits(d, limit);
        assert(d.take(fitting_prefix_len(d, limit) as int) =~= s.take(
            fitting_prefix_len(d, limit) as int,
        ));
    }
}

proof fn lemma_component_start_bounds(t: Seq<char>, e: int)
    requires
        0 <= e,
    ensures
        0 <= component_start(t, e) <= e,
    decreases e,
{
    if e > 0 && t[e - 1] != '/' {
        lemma_component_start_bounds(t, e - 1);
    }
}

proof fn lemma_stem_end_bounds(t: Seq<char>, i: int, e: int)
    requires
        i <= e,
    ensures
        i <= stem_end(t, i, e) <= e,
    decreases e - i,
{
    if i < e && t[i] != '.' {
        lemma_stem_end_bounds(t, i + 1, e);
    }
}

proof fn lemma_skip_white_space_bounds(t: Seq<char>, i: int, e: int)
    requires
        i <= e,
    ensures
        i <= skip_white_space(t, i, e) <= e,
    decreases e - i,
{
    if i < e && is_white_space(t[i]) {
        lemma_skip_white_space_bounds(t, i + 1, e);
    }
}

proof fn lemma_trim_end_bounds(t: Seq<char>, a: int, e: int)
    requires
        a <= e,
    ensures
        a <= trim_end(t, a, e) <= e,
    decreases e - a,
{
    if a < e && is_white_space(t[e - 1]) {
        lemma_trim_end_bounds(t, a, e - 1);
    }
}

/// The marker always goes inside the name or at its end.
proof fn lemma_reserved_mark_bounds(t: Seq<char>)
    ensures
        reserved_mark(t) matches Some(b) ==> 0 <= b <= t.len(),
{
    let e = component_end(t);
    lemma_component_start_bounds(t, e);
    let st = component_start(t, e);
    lemma_stem_end_bounds(t, st, e);
    let se = stem_end(t, st, e);
    lemma_skip_white_space_bounds(t, st, se);
    let a = skip_white_space(t, st, se);
    lemma_trim_end_bounds(t, a, se);
}

proof fn lemma_mark_reserved_len(t: Seq<char>)
    ensures
        byte_len(mark_reserved(t)) == byte_len(t) + (if reserved_mark(t) is Some {
            1int
        } else {
            0int
        }),
{
    lemma_reserved_mark_bounds(t);
    if let Some(b) = reserved_mark(t) {
        let m = seq!['!'];
        assert(byte_len(m) == 1) by {
            assert(m.drop_last() =~= Seq::<char>::empty());
            assert(byte_len(Seq::<char>::empty()) == 0);
            assert(m.last() == '!');
        }
        assert(t.insert(b, '!') =~= t.take(b) + m + t.skip(b));
        assert(t =~= t.take(b) + t.skip(b));
        lemma_byte_len_concat(t.take(b), m);
        lemma_byte_len_concat(t.take(b) + m, t.skip(b));
        lemma_byte_len_concat(t.take(b), t.skip(b));
    }
}

/// Under the default options, no character that Windows or Unix refuses in a file
/// name (`/ \ : * ? " < > |` and the control characters below 0x20) is left.
pub proof fn lemma_sanitized_has_no_banned_chars(s: Seq<char>)
    ensures
        forall|i: int|
            0 <= i < sanitized_default(s).len() ==> !is_windows_banned(
                #[trigger] sanitized_default(s)[i],
            ),
{
}

/// Under the default options the result is at most 248 bytes long, unless the
/// truncated name already took all 248 bytes and then got the reserved-name marker.
pub proof fn lemma_sanitized_fits(s: Seq<char>)
    requires
        reserved_mark(truncated(s)) is None || byte_len(truncated(s)) < MAX_FILENAME_LENGTH,
    ensures
        byte_len(sanitized_default(s)) <= MAX_FILENAME_LENGTH,
        encode_utf8(sanitized_default(s)).len() <= MAX_FILENAME_LENGTH,
{
    lemma_byte_len_is_encoded_len(sanitized_default(s));
    let t = truncated(s);
    lemma_truncated_fits(s, MAX_FILENAME_LENGTH as nat);
    lemma_mark_reserved_len(t);
    let m = mark_reserved(t);
    let w = replace_windows_banned(m, DEFAULT_REPLACEMENT);
    lemma_byte_len_same_widths(m, w);
    lemma_byte_len_same_widths(w, replace_unix_banned(w, DEFAULT_REPLACEMENT));
}

/// Sanitising a sanitised name (default options) changes nothing, whenever that name
/// is within the length bound and carries no unmarked reserved device name.
pub proof fn lemma_sanitize_idempotent(s: Seq<char>)
    requires
        byte_len(sanitized_default(s)) <= MAX_FILENAME_LENGTH,
        reserved_mark(sanitized_default(s)) is None,
    ensures
        sanitized_default(sanitized_default(s)) == sanitized_default(s),
{
    let u = sanitized_default(s);
    lemma_sanitized_has_no_banned_chars(s);
    assert(u.take(u.len() as int) =~= u);
    assert(truncated(u) == u);
    assert(mark_reserved(u) == u);
    let w = replace_windows_banned(u, DEFAULT_REPLACEMENT);
    assert(w =~= u);
    assert(replace_unix_banned(w, DEFAULT_REPLACEMENT) =~= u);
}

// ---------------------------------------------------------------------------
// Executable pieces
// ---------------------------------------------------------------------------

fn char_width(c: char) -> (w: usize)
    ensures
        w == utf8_width(c),
{
    let u = c as u32;
    if u < 0x80 {
        1
    } else if u < 0x800 {
        2
    } else if u < 0x10000 {
        3
    } else {
        4
    }
}

fn is_white_space_char(c: char) -> (r: bool)
    ensures
        r == is_white_space(c),
{
    let u = c as u32;
    (0x09 <= u && u <= 0x0d) || u == 0x20 || u == 0x85 || u == 0xa0 || u == 0x1680 || (0x2000
        <= u && u <= 0x200a) || u == 0x2028 || u == 0x2029 || u == 0x202f || u == 0x205f || u
        == 0x3000
}

fn is_windows_banned_char(c: char) -> (r: bool)
    ensures
        r == is_windows_banned(c),
{
    c == '<' || c == '>' || c == ':' || c == '"' || c == '/' || c == '\\' || c == '*' || c
        == '|' || c == '?' || (c as u32) < 0x20
}

/// Relies on `FromIterator<char> for String`: the string holds the characters in order.
#[verifier::external_body]
pub(crate) fn string_from_chars(chars: &Vec<char>) -> (r: String)
    ensures
        r@ == chars@,
{
    chars.iter().collect()
}

/// The characters of the longest prefix of `path` that fits in the filename bound.
fn truncate_to_limit(path: &str) -> (r: Vec<char>)
    ensures
        r@ == truncated(path@),
{
    let n = path.unicode_len();
    let mut out: Vec<char> = Vec::new();
    let mut used: usize = 0;
    let mut i: usize = 0;
    let mut full = false;
    while i < n && !full
        invariant
            n == path@.len(),
            i <= n,
            out@ == path@.take(i as int),
            used == byte_len(path@.take(i as int)),
            used <= MAX_FILENAME_LENGTH,
            full ==> i < n && byte_len(path@.take(i + 1)) > MAX_FILENAME_LENGTH,
        decreases n - i + (if full { 0int } else { 1int }),
    {
        let c = path.get_char(i);
        let w = char_width(c);
        assert(path@.take(i + 1).drop_last() =~= path@.take(i as int));
        if used + w > MAX_FILENAME_LENGTH {
            full = true;
        } else {
            out.push(c);
            used = used + w;
            i = i + 1;
            assert(out@ =~= path@.take(i as int));
        }
    }
    proof {
        lemma_fitting_prefix_unique(path@, MAX_FILENAME_LENGTH as nat, i as int);
    }
    out
}

fn is_reserved_at(t: &Vec<char>, a: usize, b: usize) -> (r: bool)
    requires
        a <= b <= t.len(),
    ensures
        r == is_reserved_name(t@.subrange(a as int, b as int)),
{
    let ghost n = t@.subrange(a as int, b as int);
    if b - a == 3 {
        let (x, y, z) = (t[a], t[a + 1], t[a + 2]);
        assert(n[0] == x && n[1] == y && n[2] == z);
        (x == 'C' && y == 'O' && z == 'N') || (x == 'P' && y == 'R' && z == 'N') || (x == 'A' && y
            == 'U' && z == 'X') || (x == 'N' && y == 'U' && z == 'L')
    } else if b - a == 4 {
        let (x, y, z, d) = (t[a], t[a + 1], t[a + 2], t[a + 3]);
        assert(n[0] == x && n[1] == y && n[2] == z && n[3] == d);
        ((x == 'C' && y == 'O' && z == 'M') || (x == 'L' && y == 'P' && z == 'T')) && '1' <= d
            && d <= '9'
    } else {
        false
    }
}

/// First index of `t[i..e]` that is not white space, or `e`.
pub(crate) fn skip_white_space_exec(t: &Vec<char>, i: usize, e: usize) -> (r: usize)
    requires
        i <= e <= t.len(),
    ensures
        r == skip_white_space(t@, i as int, e as int),
        i <= r <= e,
{
    let mut a: usize = i;
    while a < e && is_white_space_char(t[a])
        invariant
            e <= t.len(),
            i <= a <= e,
            skip_white_space(t@, a as int, e as int) == skip_white_space(t@, i as int, e as int),
        decreases e - a,
    {
        a = a + 1;
    }
    a
}

/// End of `t[a..e]` without its trailing white space.
pub(crate) fn trim_end_exec(t: &Vec<char>, a: usize, e: usize) -> (r: usize)
    requires
        a <= e <= t.len(),
    ensures
        r == trim_end(t@, a as int, e as int),
        a <= r <= e,
{
    let mut b: usize = e;
    while b > a && is_white_space_char(t[b - 1])
        invariant
            e <= t.len(),
            a <= b <= e,
            trim_end(t@, a as int, b as int) == trim_end(t@, a as int, e as int),
        decreases b,
    {
        b = b - 1;
    }
    b
}

/// Where a `!` goes after a reserved device name in the trailing component of `t`.
fn find_reserved_mark(t: &Vec<char>) -> (r: Option<usize>)
    ensures
        match r {
            Some(b) => reserved_mark(t@) == Some(b as int) && b <= t.len(),
            None => reserved_mark(t@) is None,
        },
{
    let len = t.len();
    let e: usize = if len >= 2 && t[len - 1] == '.' && t[len - 2] == '.' {
        len - 2
    } else if len >= 1 && t[len - 1] == '/' {
        len - 1
    } else {
        len
    };
    assert(e as int == component_end(t@));

    let mut st: usize = e;
    while st > 0 && t[st - 1] != '/'
        invariant
            e <= t.len(),
            st <= e,
            component_start(t@, st as int) == component_start(t@, e as int),
        decreases st,
    {
        st = st - 1;
    }

    let mut se: usize = st;
    while se < e && t[se] != '.'
        invariant
            e <= t.len(),
            st <= se <= e,
            stem_end(t@, se as int, e as int) == stem_end(t@, st as int, e as int),
        decreases e - se,
    {
        se = se + 1;
    }

    let a = skip_white_space_exec(t, st, se);
    let b = trim_end_exec(t, a, se);

    if is_reserved_at(t, a, b) {
        Some(b)
    } else {
        None
    }
}

/// The Windows rules: mark a reserved device name, then replace the banned characters.
fn windows(t: &Vec<char>, replacement: char) -> (r: Vec<char>)
    ensures
        r@ == windows_rules(t@, replacement),
{
    let mut marked = t.clone();
    assert(marked@ =~= t@);
    match find_reserved_mark(t) {
        Some(b) => {
            marked.insert(b, '!');
        },
        None => {},
    }
    let ghost m = marked@;
    assert(m == mark_reserved(t@));
    let mut out: Vec<char> = Vec::new();
    let mut i: usize = 0;
    while i < marked.len()
        invariant
            marked@ == m,
            i <= m.len(),
            out.len() == i,
            forall|j: int|
                0 <= j < i ==> #[trigger] out@[j] == (if is_windows_banned(m[j]) {
                    replacement
                } else {
                    m[j]
                }),
        decreases m.len() - i,
    {
        let c = marked[i];
        if is_windows_banned_char(c) {
            out.push(replacement);
        } else {
            out.push(c);
        }
        i = i + 1;
    }
    assert(out@ =~= replace_windows_banned(m, replacement));
    out
}

/// The Unix rules: replace `/` and NUL.
fn unix(t: &Vec<char>, replacement: char) -> (r: Vec<char>)
    ensures
        r@ == replace_unix_banned(t@, replacement),
{
    let mut out: Vec<char> = Vec::new();
    let mut i: usize = 0;
    while i < t.len()
        invariant
            i <= t.len(),
            out.len() == i,
            forall|j: int|
                0 <= j < i ==> #[trigger] out@[j] == (if is_unix_banned(t@[j]) {
                    replacement
                } else {
                    t@[j]
                }),
        decreases t.len() - i,
    {
        let c = t[i];
        if c == '/' || c == '\0' {
            out.push(replacement);
        } else {
            out.push(c);
        }
        i = i + 1;
    }
    assert(out@ =~= replace_unix_banned(t@, replacement));
    out
}

/// Turns `path` into a name that the chosen file systems accept as a file name.
/// The replacement defaults to `!` and the target to both systems.
pub fn sanitize(path: &str, replacement: Option<char>, target: Option<OsTarget>) -> (r: String)
    ensures
        r@ == sanitized(
            path@,
            match replacement {
                Some(c) => c,
                None => DEFAULT_REPLACEMENT,
            },
            match target {
                Some(t) => t,
                None => OsTarget::All,
            },
        ),
{
    let replacement = match replacement {
        Some(c) => c,
        None => DEFAULT_REPLACEMENT,
    };
    let target = match target {
        Some(t) => t,
        None => OsTarget::All,
    };
    let t = truncate_to_limit(path);
    let out = match target {
        OsTarget::All => unix(&windows(&t, replacement), replacement),
        OsTarget::Windows => windows(&t, replacement),
        OsTarget::Unix => unix(&t, replacement),
    };
    string_from_chars(&out)
}

} // verus!
