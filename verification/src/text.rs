//! Character-level text utilities with their specifications.

use vstd::prelude::*;

verus! {

/// Unicode `White_Space` code points: the set that `char::is_whitespace` and
/// `str::trim` use.
pub open spec fn is_white_space(c: char) -> bool {
    let u = c as u32;
    ||| 0x09 <= u <= 0x0D
    ||| u == 0x20
    ||| u == 0x85
    ||| u == 0xA0
    ||| u == 0x1680
    ||| 0x2000 <= u <= 0x200A
    ||| u == 0x2028
    ||| u == 0x2029
    ||| u == 0x202F
    ||| u == 0x205F
    ||| u == 0x3000
}

pub fn char_is_white_space(c: char) -> (r: bool)
    ensures
        r == is_white_space(c),
{
    let u = c as u32;
    (0x09 <= u && u <= 0x0D) || u == 0x20 || u == 0x85 || u == 0xA0 || u == 0x1680 || (0x2000
        <= u && u <= 0x200A) || u == 0x2028 || u == 0x2029 || u == 0x202F || u == 0x205F || u
        == 0x3000
}

/// Drops leading white space.
pub open spec fn trim_start(s: Seq<char>) -> Seq<char>
    decreases s.len(),
{
    if s.len() > 0 && is_white_space(s[0]) {
        trim_start(s.drop_first())
    } else {
        s
    }
}

/// Drops trailing white space.
pub open spec fn trim_end(s: Seq<char>) -> Seq<char>
    decreases s.len(),
{
    if s.len() > 0 && is_white_space(s.last()) {
        trim_end(s.drop_last())
    } else {
        s
    }
}

/// Drops white space at both ends, as `str::trim` does.
pub open spec fn trim(s: Seq<char>) -> Seq<char> {
    trim_end(trim_start(s))
}

/// The characters of `s`, in order.
pub fn chars_of(s: &str) -> (cs: Vec<char>)
    ensures
        cs@ == s@,
{
    let n = s.unicode_len();
    let mut cs: Vec<char> = Vec::new();
    let mut i: usize = 0;
    while i < n
        invariant
            n == s@.len(),
            i <= n,
            cs@ == s@.take(i as int),
        decreases n - i,
    {
        let c = s.get_char(i);
        cs.push(c);
        i = i + 1;
        assert(cs@ =~= s@.take(i as int));
    }
    assert(s@.take(n as int) =~= s@);
    cs
}


/// `s` with white space removed from both ends; the result borrows from `s`.
pub fn trim_str(s: &str) -> (r: &str)
    ensures
        r@ == trim(s@),
{
    let cs = chars_of(s);
    let n = cs.len();
    let mut i: usize = 0;
    assert(s@.subrange(0, n as int) =~= s@);
    while i < n
        invariant
            n == s@.len(),
            cs@ == s@,
            i <= n,
            trim_start(s@) == trim_start(s@.subrange(i as int, n as int)),
        ensures
            i <= n,
            trim_start(s@) == trim_start(s@.subrange(i as int, n as int)),
            i == n || !is_white_space(s@[i as int]),
        decreases n - i,
    {
        if !char_is_white_space(cs[i]) {
            break;
        }
        assert(s@.subrange(i as int, n as int).drop_first() =~= s@.subrange(i + 1, n as int));
        i = i + 1;
    }
    assert(trim_start(s@) == s@.subrange(i as int, n as int));
    let mut j: usize = n;
    while j > i
        invariant
            n == s@.len(),
            cs@ == s@,
            i <= j <= n,
            trim(s@) == trim_end(s@.subrange(i as int, j as int)),
        ensures
            i <= j <= n,
            trim(s@) == trim_end(s@.subrange(i as int, j as int)),
            j == i || !is_white_space(s@[j - 1]),
        decreases j - i,
    {
        if !char_is_white_space(cs[j - 1]) {
            break;
        }
        assert(s@.subrange(i as int, j as int).drop_last() =~= s@.subrange(i as int, j - 1));
        j = j - 1;
    }
    assert(trim(s@) == s@.subrange(i as int, j as int));
    s.substring_char(i, j)
}

/// Whether two strings hold the same characters.
pub fn str_eq(a: &str, b: &str) -> (r: bool)
    ensures
        r == (a@ == b@),
{
    let ca = chars_of(a);
    let cb = chars_of(b);
    if ca.len() != cb.len() {
        return false;
    }
    let mut i: usize = 0;
    while i < ca.len()
        invariant
            ca@ == a@,
            cb@ == b@,
            ca.len() == cb.len(),
            i <= ca.len(),
            forall|k: int| 0 <= k < i ==> ca@[k] == cb@[k],
        decreases ca.len() - i,
    {
        if ca[i] != cb[i] {
            return false;
        }
        i = i + 1;
    }
    assert(a@ =~= b@);
    true
}

/// Builds a `String` from characters (`String: FromIterator<&char>`); the
/// string holds exactly the given characters.
#[verifier::external_body]
pub fn string_from_chars(cs: &Vec<char>) -> (s: String)
    ensures
        s@ == cs@,
{
    cs.iter().collect()
}

/// What `str::to_lowercase` returns for the given characters: the full
/// Unicode lowercase mapping, a function of the characters alone.
pub uninterp spec fn lowercase(s: Seq<char>) -> Seq<char>;

/// Calls `str::to_lowercase`; the result is `lowercase` of the input.
#[verifier::external_body]
pub fn to_lowercase(s: &str) -> (r: String)
    ensures
        r@ == lowercase(s@),
{
    s.to_lowercase()
}


/// Position of the first `c` in `s`, if any (`str::find` with a `char`).
pub open spec fn index_of_char(s: Seq<char>, c: char) -> Option<int>
    decreases s.len(),
{
    if s.len() == 0 {
        None
    } else if s[0] == c {
        Some(0)
    } else {
        match index_of_char(s.drop_first(), c) {
            Some(i) => Some(i + 1),
            None => None,
        }
    }
}

pub proof fn lemma_index_of_char(s: Seq<char>, c: char)
    ensures
        match index_of_char(s, c) {
            Some(i) => 0 <= i < s.len() && s[i] == c && forall|k: int| 0 <= k < i ==> s[k] != c,
            None => forall|k: int| 0 <= k < s.len() ==> s[k] != c,
        },
    decreases s.len(),
{
    if s.len() > 0 {
        lemma_index_of_char(s.drop_first(), c);
        if s[0] != c {
            assert forall|k: int| 1 <= k < s.len() implies s[k] == s.drop_first()[k - 1] by {}
        }
    }
}

/// Finds the first `c` in `cs`.
pub fn find_char(cs: &Vec<char>, c: char) -> (r: Option<usize>)
    ensures
        r matches Some(i) ==> index_of_char(cs@, c) == Some(i as int),
        r is None ==> index_of_char(cs@, c) is None,
{
    proof {
        lemma_index_of_char(cs@, c);
    }
    let mut i: usize = 0;
    while i < cs.len()
        invariant
            i <= cs.len(),
            forall|k: int| 0 <= k < i ==> cs@[k] != c,
        decreases cs.len() - i,
    {
        if cs[i] == c {
            proof {
                lemma_index_of_char(cs@, c);
                match index_of_char(cs@, c) {
                    Some(j) => {
                        assert(!(j < i));
                        assert(!(i < j));
                    },
                    None => {},
                }
            }
            return Some(i);
        }
        i = i + 1;
    }
    None
}

/// The pieces of `s` between occurrences of `sep`, as `str::split` with a
/// `char` gives them: always at least one piece, empty pieces kept.
pub open spec fn split_on(s: Seq<char>, sep: char) -> Seq<Seq<char>>
    decreases s.len(),
{
    if s.len() == 0 {
        seq![Seq::<char>::empty()]
    } else {
        let pieces = split_on(s.drop_last(), sep);
        if s.last() == sep {
            pieces.push(Seq::<char>::empty())
        } else {
            pieces.update(pieces.len() - 1, pieces.last().push(s.last()))
        }
    }
}

pub proof fn lemma_split_on_nonempty(s: Seq<char>, sep: char)
    ensures
        split_on(s, sep).len() >= 1,
    decreases s.len(),
{
    if s.len() > 0 {
        lemma_split_on_nonempty(s.drop_last(), sep);
    }
}

/// Splits `s` at every `sep`; the pieces borrow from `s`.
pub fn split_str(s: &str, sep: char) -> (r: Vec<&str>)
    ensures
        r@.map_values(|p: &str| p@) == split_on(s@, sep),
{
    let cs = chars_of(s);
    let n = cs.len();
    let mut pieces: Vec<&str> = Vec::new();
    let mut start: usize = 0;
    let mut i: usize = 0;
    assert(s@.take(0) =~= Seq::<char>::empty());
    assert(pieces@.map_values(|p: &str| p@).push(s@.subrange(0, 0)) =~= seq![Seq::<char>::empty()]);
    while i < n
        invariant
            n == s@.len(),
            cs@ == s@,
            start <= i <= n,
            pieces@.map_values(|p: &str| p@).push(s@.subrange(start as int, i as int)) == split_on(
                s@.take(i as int),
                sep,
            ),
        decreases n - i,
    {
        let ghost prev = pieces@.map_values(|p: &str| p@);
        assert(s@.take(i + 1).drop_last() =~= s@.take(i as int));
        assert(s@.take(i + 1).last() == s@[i as int]);
        if cs[i] == sep {
            let piece = s.substring_char(start, i);
            pieces.push(piece);
            start = i + 1;
            assert(pieces@.map_values(|p: &str| p@) =~= prev.push(piece@));
            assert(s@.subrange(start as int, i + 1) =~= Seq::<char>::empty());
        } else {
            assert(s@.subrange(start as int, i + 1) =~= s@.subrange(start as int, i as int).push(
                s@[i as int],
            ));
        }
        i = i + 1;
    }
    let last = s.substring_char(start, n);
    let ghost prev = pieces@.map_values(|p: &str| p@);
    pieces.push(last);
    assert(pieces@.map_values(|p: &str| p@) =~= prev.push(last@));
    assert(s@.take(n as int) =~= s@);
    pieces
}


/// The pieces joined with `sep` between neighbours, as `[T]::join` does.
pub open spec fn join_with(pieces: Seq<Seq<char>>, sep: Seq<char>) -> Seq<char>
    decreases pieces.len(),
{
    if pieces.len() == 0 {
        Seq::empty()
    } else if pieces.len() == 1 {
        pieces[0]
    } else {
        join_with(pieces.drop_last(), sep) + sep + pieces.last()
    }
}

/// Joins `pieces` with `sep` between neighbours.
pub fn join_strings(pieces: &Vec<String>, sep: &str) -> (r: String)
    ensures
        r@ == join_with(pieces.deep_view(), sep@),
{
    let mut r = String::new();
    let mut i: usize = 0;
    while i < pieces.len()
        invariant
            i <= pieces.len(),
            r@ == join_with(pieces.deep_view().take(i as int), sep@),
        decreases pieces.len() - i,
    {
        assert(pieces.deep_view().take(i + 1).drop_last() =~= pieces.deep_view().take(i as int));
        if i != 0 {
            r.append(sep);
        } else {
            assert(r@ =~= Seq::<char>::empty());
        }
        r.append(pieces[i].as_str());
        i = i + 1;
        assert(r@ =~= join_with(pieces.deep_view().take(i as int), sep@));
    }
    assert(pieces.deep_view().take(pieces.len() as int) =~= pieces.deep_view());
    r
}


/// The decimal digit character for `d` (below ten).
pub open spec fn digit_char(d: nat) -> char {
    ((48 + d) as u8) as char
}

/// The decimal numeral of `n`, without sign or leading zeros.
pub open spec fn decimal(n: nat) -> Seq<char>
    decreases n,
{
    if n < 10 {
        seq![digit_char(n)]
    } else {
        decimal(n / 10).push(digit_char(n % 10))
    }
}

fn push_decimal(n: u32, out: &mut Vec<char>)
    ensures
        final(out)@ == old(out)@ + decimal(n as nat),
    decreases n,
{
    if n >= 10 {
        push_decimal(n / 10, out);
    }
    let d: u8 = (n % 10) as u8;
    let c: char = (48u8 + d) as char;
    out.push(c);
    assert(out@ =~= old(out)@ + decimal(n as nat));
}

/// The decimal numeral of `n`, as `u32`'s `Display` writes it.
pub fn decimal_string(n: u32) -> (r: String)
    ensures
        r@ == decimal(n as nat),
{
    let mut cs: Vec<char> = Vec::new();
    push_decimal(n, &mut cs);
    assert(cs@ =~= decimal(n as nat));
    string_from_chars(&cs)
}


/// `s` with every non-overlapping occurrence of `from`, found left to right,
/// replaced by `to`, as `str::replace` does for a non-empty pattern.
pub open spec fn replace_all(s: Seq<char>, from: Seq<char>, to: Seq<char>) -> Seq<char>
    recommends
        from.len() > 0,
    decreases s.len(),
{
    if s.len() == 0 {
        s
    } else if from.len() > 0 && from.len() <= s.len() && s.take(from.len() as int) == from {
        to + replace_all(s.skip(from.len() as int), from, to)
    } else {
        seq![s[0]] + replace_all(s.skip(1), from, to)
    }
}

/// Whether `pat` occurs in `cs` at position `at`.
pub fn occurs_at(cs: &Vec<char>, at: usize, pat: &Vec<char>) -> (r: bool)
    requires
        at <= cs.len(),
    ensures
        r == (pat.len() <= cs.len() - at && cs@.skip(at as int).take(pat.len() as int) == pat@),
{
    if pat.len() > cs.len() - at {
        return false;
    }
    let mut k: usize = 0;
    while k < pat.len()
        invariant
            at <= cs.len(),
            pat.len() <= cs.len() - at,
            k <= pat.len(),
            forall|j: int| 0 <= j < k ==> cs@[at + j] == pat@[j],
        decreases pat.len() - k,
    {
        if cs[at + k] != pat[k] {
            assert(cs@.skip(at as int).take(pat.len() as int)[k as int] != pat@[k as int]);
            return false;
        }
        k = k + 1;
    }
    assert(cs@.skip(at as int).take(pat.len() as int) =~= pat@);
    true
}

/// Replaces every occurrence of the non-empty `from` in `s` by `to`.
pub fn replace_str(s: &str, from: &str, to: &str) -> (r: String)
    requires
        from@.len() > 0,
    ensures
        r@ == replace_all(s@, from@, to@),
{
    let cs = chars_of(s);
    let fs = chars_of(from);
    let ts = chars_of(to);
    let n = cs.len();
    let mut out: Vec<char> = Vec::new();
    let mut i: usize = 0;
    assert(s@.skip(0) =~= s@);
    assert(out@ + replace_all(s@, from@, to@) =~= replace_all(s@, from@, to@));
    while i < n
        invariant
            n == s@.len(),
            cs@ == s@,
            fs@ == from@,
            ts@ == to@,
            fs@.len() > 0,
            i <= n,
            out@ + replace_all(s@.skip(i as int), from@, to@) == replace_all(s@, from@, to@),
        decreases n - i,
    {
        let ghost rest = s@.skip(i as int);
        if occurs_at(&cs, i, &fs) {
            assert(rest.take(from@.len() as int) == from@);
            assert(rest.skip(from@.len() as int) =~= s@.skip(i + fs.len()));
            let mut k: usize = 0;
            let ghost before = out@;
            while k < ts.len()
                invariant
                    k <= ts.len(),
                    out@ == before + ts@.take(k as int),
                decreases ts.len() - k,
            {
                out.push(ts[k]);
                k = k + 1;
                assert(out@ =~= before + ts@.take(k as int));
            }
            assert(ts@.take(ts.len() as int) =~= ts@);
            assert(out@ + replace_all(s@.skip(i + fs.len()), from@, to@) =~= before + replace_all(rest, from@, to@));
            i = i + fs.len();
        } else {
            assert(rest.skip(1) =~= s@.skip(i + 1));
            let ghost before = out@;
            out.push(cs[i]);
            assert(out@ + replace_all(s@.skip(i + 1), from@, to@) =~= before + replace_all(rest, from@, to@));
            i = i + 1;
        }
    }
    assert(s@.skip(n as int) =~= Seq::<char>::empty());
    assert(out@ =~= replace_all(s@, from@, to@));
    string_from_chars(&out)
}


/// Whether `c` does not occur in `s`.
pub open spec fn lacks(s: Seq<char>, c: char) -> bool {
    forall|i: int| 0 <= i < s.len() ==> s[i] != c
}

/// Whether `s` has no white space at either end.
pub open spec fn is_trimmed(s: Seq<char>) -> bool {
    s.len() == 0 || (!is_white_space(s[0]) && !is_white_space(s.last()))
}

/// Trimming a string without white space at its ends changes nothing.
pub proof fn lemma_trim_trimmed(s: Seq<char>)
    requires
        is_trimmed(s),
    ensures
        trim(s) == s,
{
}

/// A space in front of a trimmed, non-empty string is trimmed away.
pub proof fn lemma_trim_space_before(s: Seq<char>)
    requires
        is_trimmed(s),
        s.len() > 0,
    ensures
        trim(seq![' '] + s) == s,
{
    let t = seq![' '] + s;
    assert(t[0] == ' ');
    assert((' ' as u32) == 0x20);
    assert(is_white_space(t[0]));
    assert(t.drop_first() =~= s);
    assert(trim_start(s) == s);
    assert(trim_start(t) == trim_start(s));
    assert(trim_end(s) == s);
}

/// Appending text without separators extends the last piece.
pub proof fn lemma_split_extend(p: Seq<char>, b: Seq<char>, sep: char)
    requires
        lacks(b, sep),
    ensures
        split_on(p + b, sep).len() == split_on(p, sep).len(),
        split_on(p + b, sep) == split_on(p, sep).update(
            split_on(p, sep).len() - 1,
            split_on(p, sep).last() + b,
        ),
    decreases b.len(),
{
    lemma_split_on_nonempty(p, sep);
    if b.len() == 0 {
        assert(p + b =~= p);
        assert(split_on(p, sep).last() + b =~= split_on(p, sep).last());
        assert(split_on(p, sep).update(split_on(p, sep).len() - 1, split_on(p, sep).last())
            =~= split_on(p, sep));
    } else {
        let b0 = b.drop_last();
        lemma_split_extend(p, b0, sep);
        assert((p + b).drop_last() =~= p + b0);
        assert((p + b).last() == b.last());
        assert(b.last() != sep);
        let q = split_on(p + b0, sep);
        let l = split_on(p, sep).len() - 1;
        assert(q.len() == l + 1);
        assert(q.last() =~= split_on(p, sep).last() + b0);
        assert(q.last().push(b.last()) =~= split_on(p, sep).last() + b);
        assert(split_on(p, sep).last() + b0 + seq![b.last()] =~= split_on(p, sep).last() + b);
        assert(q.update(q.len() - 1, q.last().push(b.last())) =~= split_on(p, sep).update(
            split_on(p, sep).len() - 1,
            split_on(p, sep).last() + b,
        ));
    }
}

/// A separator followed by text without separators starts a new last piece.
pub proof fn lemma_split_after_sep(p: Seq<char>, b: Seq<char>, sep: char)
    requires
        lacks(b, sep),
    ensures
        split_on(p + seq![sep] + b, sep) == split_on(p, sep).push(b),
{
    let q = p + seq![sep];
    assert(q.drop_last() =~= p);
    assert(split_on(q, sep) == split_on(p, sep).push(Seq::<char>::empty()));
    lemma_split_extend(q, b, sep);
    assert(Seq::<char>::empty() + b =~= b);
    assert(split_on(p, sep).push(Seq::<char>::empty()).update(split_on(p, sep).len() as int, b)
        =~= split_on(p, sep).push(b));
}

/// Text without separators is a single piece.
pub proof fn lemma_split_single(b: Seq<char>, sep: char)
    requires
        lacks(b, sep),
    ensures
        split_on(b, sep) == seq![b],
{
    lemma_split_extend(Seq::<char>::empty(), b, sep);
    assert(Seq::<char>::empty() + b =~= b);
    assert(split_on(Seq::<char>::empty(), sep) == seq![Seq::<char>::empty()]);
    assert(seq![Seq::<char>::empty()].update(0, Seq::<char>::empty() + b) =~= seq![b]);
}


/// Replacing a pattern whose first character does not occur changes nothing.
pub proof fn lemma_replace_absent(s: Seq<char>, from: Seq<char>, to: Seq<char>)
    requires
        from.len() > 0,
        lacks(s, from[0]),
    ensures
        replace_all(s, from, to) == s,
    decreases s.len(),
{
    if s.len() > 0 {
        if from.len() <= s.len() {
            assert(s.take(from.len() as int)[0] == s[0]);
            assert(s.take(from.len() as int) != from);
        }
        let rest = s.skip(1);
        assert(lacks(rest, from[0])) by {
            assert forall|i: int| 0 <= i < rest.len() implies rest[i] != from[0] by {
                assert(rest[i] == s[i + 1]);
            }
        }
        lemma_replace_absent(rest, from, to);
        assert(seq![s[0]] + rest =~= s);
    }
}


/// A string that is exactly the pattern becomes the replacement.
pub proof fn lemma_replace_whole(s: Seq<char>, to: Seq<char>)
    requires
        s.len() > 0,
    ensures
        replace_all(s, s, to) == to,
{
    assert(s.take(s.len() as int) =~= s);
    assert(s.skip(s.len() as int) =~= Seq::<char>::empty());
    assert(replace_all(Seq::<char>::empty(), s, to) == Seq::<char>::empty());
    assert(to + Seq::<char>::empty() =~= to);
}

} // verus!
