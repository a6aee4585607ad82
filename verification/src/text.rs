//! Verified text utilities shared by the gateway modules.
//!
//! Everything here works over `Seq<char>` views: character classes,
//! ASCII case folding, splitting and joining on separators, and decimal
//! rendering of integers.

use vstd::prelude::*;

verus! {

// --- character classes -------------------------------------------------

pub open spec fn spec_is_upper(c: char) -> bool {
    'A' <= c && c <= 'Z'
}

/// ASCII case folding of a single character; other characters are unchanged.
pub open spec fn spec_lower_char(c: char) -> char {
    if spec_is_upper(c) {
        ((c as int) + 32) as char
    } else {
        c
    }
}

/// ASCII case folding of a whole string.
pub open spec fn spec_lower(s: Seq<char>) -> Seq<char> {
    s.map_values(|c: char| spec_lower_char(c))
}

pub open spec fn spec_is_digit(c: char) -> bool {
    '0' <= c && c <= '9'
}

pub open spec fn spec_is_hex_digit(c: char) -> bool {
    spec_is_digit(c) || ('a' <= c && c <= 'f') || ('A' <= c && c <= 'F')
}

pub fn lower_char(c: char) -> (r: char)
    ensures
        r == spec_lower_char(c),
{
    if 'A' <= c && c <= 'Z' {
        ((c as u8) + 32) as char
    } else {
        c
    }
}

pub fn is_digit_char(c: char) -> (r: bool)
    ensures
        r == spec_is_digit(c),
{
    '0' <= c && c <= '9'
}

pub fn is_hex_digit_char(c: char) -> (r: bool)
    ensures
        r == spec_is_hex_digit(c),
{
    ('0' <= c && c <= '9') || ('a' <= c && c <= 'f') || ('A' <= c && c <= 'F')
}

pub open spec fn spec_is_alnum(c: char) -> bool {
    spec_is_digit(c) || ('a' <= c && c <= 'z') || ('A' <= c && c <= 'Z')
}

/// The view of an optional string.
pub open spec fn opt_view(o: Option<String>) -> Option<Seq<char>> {
    match o {
        Some(s) => Some(s@),
        None => None,
    }
}

// --- whole-string comparisons ------------------------------------------

/// Character-for-character equality of two string slices.
pub fn str_eq(a: &str, b: &str) -> (r: bool)
    ensures
        r == (a@ == b@),
{
    let n = a.unicode_len();
    if n != b.unicode_len() {
        return false;
    }
    let mut i: usize = 0;
    while i < n
        invariant
            i <= n,
            n == a@.len(),
            n == b@.len(),
            forall|j: int| 0 <= j < i ==> a@[j] == b@[j],
        decreases n - i,
    {
        if a.get_char(i) != b.get_char(i) {
            assert(a@[i as int] != b@[i as int]);
            return false;
        }
        i = i + 1;
    }
    proof {
        assert(a@ =~= b@);
    }
    true
}

/// ASCII-case-insensitive equality of two string slices.
pub fn str_eq_ignore_ascii_case(a: &str, b: &str) -> (r: bool)
    ensures
        r == (spec_lower(a@) == spec_lower(b@)),
{
    let n = a.unicode_len();
    if n != b.unicode_len() {
        proof {
            assert(spec_lower(a@).len() != spec_lower(b@).len());
        }
        return false;
    }
    let mut i: usize = 0;
    while i < n
        invariant
            i <= n,
            n == a@.len(),
            n == b@.len(),
            forall|j: int| 0 <= j < i ==> spec_lower_char(a@[j]) == spec_lower_char(b@[j]),
        decreases n - i,
    {
        if lower_char(a.get_char(i)) != lower_char(b.get_char(i)) {
            proof {
                assert(spec_lower(a@)[i as int] != spec_lower(b@)[i as int]);
            }
            return false;
        }
        i = i + 1;
    }
    proof {
        assert(spec_lower(a@) =~= spec_lower(b@));
    }
    true
}

/// Index of the first occurrence of `c` in `s`, if any.
pub fn find_char(s: &str, c: char) -> (r: Option<usize>)
    ensures
        match r {
            Some(i) => i < s@.len() && s@[i as int] == c && forall|j: int|
                0 <= j < i ==> s@[j] != c,
            None => forall|j: int| 0 <= j < s@.len() ==> s@[j] != c,
        },
{
    let n = s.unicode_len();
    let mut i: usize = 0;
    while i < n
        invariant
            i <= n,
            n == s@.len(),
            forall|j: int| 0 <= j < i ==> s@[j] != c,
        decreases n - i,
    {
        if s.get_char(i) == c {
            return Some(i);
        }
        i = i + 1;
    }
    None
}

// --- splitting and joining ---------------------------------------------

/// Split `s` at every occurrence of `sep`, keeping empty pieces, as
/// `str::split` does: the result always has at least one piece, and has
/// one more piece than `s` has separators.
pub open spec fn spec_split(s: Seq<char>, sep: char) -> Seq<Seq<char>>
    decreases s.len(),
{
    if s.len() == 0 {
        seq![Seq::<char>::empty()]
    } else if s[0] == sep {
        seq![Seq::<char>::empty()] + spec_split(s.drop_first(), sep)
    } else {
        let rest = spec_split(s.drop_first(), sep);
        seq![seq![s[0]] + rest[0]] + rest.drop_first()
    }
}

/// Concatenate `parts` with `sep` between consecutive pieces.
pub open spec fn spec_join(parts: Seq<Seq<char>>, sep: Seq<char>) -> Seq<char>
    decreases parts.len(),
{
    if parts.len() == 0 {
        Seq::<char>::empty()
    } else if parts.len() == 1 {
        parts[0]
    } else {
        parts[0] + sep + spec_join(parts.drop_first(), sep)
    }
}

pub proof fn lemma_split_len(s: Seq<char>, sep: char)
    ensures
        spec_split(s, sep).len() >= 1,
    decreases s.len(),
{
    if s.len() == 0 {
    } else if s[0] == sep {
        lemma_split_len(s.drop_first(), sep);
    } else {
        lemma_split_len(s.drop_first(), sep);
    }
}

/// A string without the separator splits into just itself.
pub proof fn lemma_split_whole(s: Seq<char>, sep: char)
    requires
        forall|j: int| 0 <= j < s.len() ==> s[j] != sep,
    ensures
        spec_split(s, sep) =~~= seq![s],
    decreases s.len(),
{
    if s.len() == 0 {
        assert(spec_split(s, sep) =~~= seq![s]);
    } else {
        lemma_split_whole(s.drop_first(), sep);
        assert(seq![s[0]] + s.drop_first() =~= s);
    }
}

/// Splitting at the first separator peels off the piece before it.
pub proof fn lemma_split_at_first(s: Seq<char>, sep: char, i: int)
    requires
        0 <= i < s.len(),
        s[i] == sep,
        forall|j: int| 0 <= j < i ==> s[j] != sep,
    ensures
        spec_split(s, sep) =~~= seq![s.subrange(0, i)] + spec_split(
            s.subrange(i + 1, s.len() as int),
            sep,
        ),
    decreases i,
{
    if i == 0 {
        assert(s.subrange(0, 0) =~= Seq::<char>::empty());
        assert(s.drop_first() =~= s.subrange(1, s.len() as int));
    } else {
        let t = s.drop_first();
        lemma_split_at_first(t, sep, i - 1);
        let rest = spec_split(t, sep);
        assert(rest =~~= seq![t.subrange(0, i - 1)] + spec_split(
            t.subrange(i, t.len() as int),
            sep,
        ));
        lemma_split_len(t.subrange(i, t.len() as int), sep);
        assert(seq![s[0]] + t.subrange(0, i - 1) =~= s.subrange(0, i));
        assert(t.subrange(i, t.len() as int) =~= s.subrange(i + 1, s.len() as int));
    }
}

/// No piece of a split contains the separator.
pub proof fn lemma_split_parts_free(s: Seq<char>, sep: char)
    ensures
        forall|k: int, j: int|
            0 <= k < spec_split(s, sep).len() && 0 <= j < spec_split(s, sep)[k].len()
                ==> spec_split(s, sep)[k][j] != sep,
    decreases s.len(),
{
    if s.len() == 0 {
    } else if s[0] == sep {
        lemma_split_parts_free(s.drop_first(), sep);
        let parts = spec_split(s, sep);
        let rest = spec_split(s.drop_first(), sep);
        assert forall|k: int, j: int|
            0 <= k < parts.len() && 0 <= j < parts[k].len() implies parts[k][j] != sep by {
            if k > 0 {
                assert(parts[k] == rest[k - 1]);
            }
        }
    } else {
        lemma_split_parts_free(s.drop_first(), sep);
        lemma_split_len(s.drop_first(), sep);
        let parts = spec_split(s, sep);
        let rest = spec_split(s.drop_first(), sep);
        assert forall|k: int, j: int|
            0 <= k < parts.len() && 0 <= j < parts[k].len() implies parts[k][j] != sep by {
            if k == 0 {
                if j > 0 {
                    assert(parts[0][j] == rest[0][j - 1]);
                }
            } else {
                assert(parts[k] == rest[k]);
            }
        }
    }
}

/// Splitting a join restores the pieces when no piece holds the separator.
pub proof fn lemma_split_join(parts: Seq<Seq<char>>, sep: char)
    requires
        parts.len() >= 1,
        forall|k: int, j: int|
            0 <= k < parts.len() && 0 <= j < parts[k].len() ==> parts[k][j] != sep,
    ensures
        spec_split(spec_join(parts, seq![sep]), sep) =~~= parts,
    decreases parts.len(),
{
    let joined = spec_join(parts, seq![sep]);
    if parts.len() == 1 {
        lemma_split_whole(parts[0], sep);
    } else {
        lemma_split_join(parts.drop_first(), sep);
        let head = parts[0];
        let tail_join = spec_join(parts.drop_first(), seq![sep]);
        assert(joined == head + seq![sep] + tail_join);
        let i = head.len() as int;
        assert(joined[i] == sep) by {
            assert(joined == (head + seq![sep]) + tail_join);
            assert((head + seq![sep])[i] == sep);
        }
        assert(forall|j: int| 0 <= j < i ==> joined[j] != sep) by {
            assert(forall|j: int| 0 <= j < i ==> joined[j] == head[j]);
        }
        lemma_split_at_first(joined, sep, i);
        assert(joined.subrange(0, i) =~= head);
        assert(joined.subrange(i + 1, joined.len() as int) =~= tail_join);
        assert(spec_split(joined, sep) =~~= seq![head] + parts.drop_first());
        assert(seq![head] + parts.drop_first() =~~= parts);
    }
}

/// The views of a vector of strings.
pub open spec fn views_of(parts: Seq<String>) -> Seq<Seq<char>> {
    parts.map_values(|p: String| p@)
}

/// Split a string slice at every occurrence of `sep`, as `str::split` does.
pub fn split_str(s: &str, sep: char) -> (parts: Vec<String>)
    ensures
        views_of(parts@) =~~= spec_split(s@, sep),
{
    let ghost whole: Seq<char> = s@;
    let mut parts: Vec<String> = Vec::new();
    let mut rest: &str = s;
    let ghost mut done: Seq<Seq<char>> = Seq::empty();
    proof {
        assert(views_of(parts@) =~~= done);
    }
    loop
        invariant_except_break
            spec_split(whole, sep) =~~= done + spec_split(rest@, sep),
            views_of(parts@) =~~= done,
        ensures
            views_of(parts@) =~~= spec_split(whole, sep),
        decreases rest@.len(),
    {
        match find_char(rest, sep) {
            Some(i) => {
                let piece = rest.substring_char(0, i);
                parts.push(piece.to_owned());
                let n = rest.unicode_len();
                let next = rest.substring_char(i + 1, n);
                proof {
                    lemma_split_at_first(rest@, sep, i as int);
                    done = done.push(piece@);
                    assert(views_of(parts@) =~~= done);
                    assert(done + spec_split(next@, sep) =~~= (done.drop_last() + spec_split(
                        rest@,
                        sep,
                    )));
                    assert(spec_split(whole, sep) =~~= done + spec_split(next@, sep));
                }
                rest = next;
            },
            None => {
                parts.push(rest.to_owned());
                proof {
                    lemma_split_whole(rest@, sep);
                    done = done.push(rest@);
                    assert(views_of(parts@) =~~= done);
                    assert(spec_split(whole, sep) =~~= done);
                }
                break;
            },
        }
    }
    parts
}

/// Append one piece to a join: a new first piece stands alone, later pieces
/// are preceded by the separator.
pub proof fn lemma_join_push(parts: Seq<Seq<char>>, sep: Seq<char>, p: Seq<char>)
    ensures
        parts.len() == 0 ==> spec_join(parts.push(p), sep) =~~= p,
        parts.len() > 0 ==> spec_join(parts.push(p), sep) =~~= spec_join(parts, sep) + sep + p,
    decreases parts.len(),
{
    if parts.len() == 0 {
        assert(parts.push(p).len() == 1);
        assert(spec_join(parts.push(p), sep) == parts.push(p)[0]);
    } else if parts.len() == 1 {
        let two = parts.push(p);
        assert(two.len() == 2);
        assert(two.drop_first() =~~= seq![p]);
        assert(spec_join(two, sep) == two[0] + sep + spec_join(two.drop_first(), sep));
        assert(spec_join(seq![p], sep) == p);
        assert(spec_join(parts, sep) == parts[0]);
    } else {
        lemma_join_push(parts.drop_first(), sep, p);
        let ext = parts.push(p);
        assert(ext.drop_first() =~~= parts.drop_first().push(p));
        assert(spec_join(ext, sep) == ext[0] + sep + spec_join(ext.drop_first(), sep));
        assert(spec_join(parts, sep) == parts[0] + sep + spec_join(parts.drop_first(), sep));
        assert(parts[0] + sep + (spec_join(parts.drop_first(), sep) + sep + p) =~~= (parts[0] + sep
            + spec_join(parts.drop_first(), sep)) + sep + p);
    }
}

/// Concatenate the strings of `parts` with `sep` between consecutive entries.
pub fn join_str(parts: &Vec<String>, sep: &str) -> (r: String)
    ensures
        r@ =~~= spec_join(views_of(parts@), sep@),
{
    let mut r = String::new();
    let mut i: usize = 0;
    while i < parts.len()
        invariant
            i <= parts@.len(),
            r@ =~~= spec_join(views_of(parts@).subrange(0, i as int), sep@),
        decreases parts@.len() - i,
    {
        if i > 0 {
            r.append(sep);
        }
        r.append(parts[i].as_str());
        proof {
            let pre = views_of(parts@).subrange(0, i as int);
            lemma_join_push(pre, sep@, parts@[i as int]@);
            assert(pre.push(parts@[i as int]@) =~~= views_of(parts@).subrange(0, i as int + 1));
        }
        i = i + 1;
    }
    proof {
        assert(views_of(parts@).subrange(0, parts@.len() as int) =~~= views_of(parts@));
    }
    r
}

/// ASCII case folding is idempotent.
pub proof fn lemma_lower_idempotent(s: Seq<char>)
    ensures
        spec_lower(spec_lower(s)) == spec_lower(s),
{
    assert(spec_lower(spec_lower(s)) =~= spec_lower(s));
}

// --- decimal rendering ---------------------------------------------------

/// The ASCII digit for `d` (0 through 9).
pub open spec fn spec_dec_digit(d: int) -> char {
    (48 + d) as char
}

/// The decimal rendering of `n`, most significant digit first, without
/// leading zeros (except for `n == 0` itself).
pub open spec fn spec_dec(n: nat) -> Seq<char>
    decreases n,
{
    if n < 10 {
        seq![spec_dec_digit(n as int)]
    } else {
        spec_dec((n / 10) as nat) + seq![spec_dec_digit((n % 10) as int)]
    }
}

fn digit_str(d: u64) -> (r: &'static str)
    requires
        d < 10,
    ensures
        r@ =~= seq![spec_dec_digit(d as int)],
{
    proof {
        reveal_strlit("0");
        reveal_strlit("1");
        reveal_strlit("2");
        reveal_strlit("3");
        reveal_strlit("4");
        reveal_strlit("5");
        reveal_strlit("6");
        reveal_strlit("7");
        reveal_strlit("8");
        reveal_strlit("9");
    }
    match d {
        0 => "0",
        1 => "1",
        2 => "2",
        3 => "3",
        4 => "4",
        5 => "5",
        6 => "6",
        7 => "7",
        8 => "8",
        _ => "9",
    }
}

/// Render `n` in decimal.
pub fn dec_str_u64(n: u64) -> (r: String)
    ensures
        r@ =~~= spec_dec(n as nat),
    decreases n,
{
    if n < 10 {
        digit_str(n).to_owned()
    } else {
        let mut r = dec_str_u64(n / 10);
        r.append(digit_str(n % 10));
        r
    }
}

} // verus!
