use vstd::prelude::*;

verus! {

/// A path joined from a folder and a name with exactly one `/` between them:
/// the root folder `/` already ends in one.
pub open spec fn joined(dir: Seq<char>, name: Seq<char>) -> Seq<char> {
    if dir == seq!['/'] {
        dir + name
    } else {
        dir + seq!['/'] + name
    }
}

fn is_root(dir: &str) -> (r: bool)
    ensures
        r == (dir@ == seq!['/']),
{
    let n = dir.unicode_len();
    if n == 1 {
        let c = dir.get_char(0);
        assert(n == 1 && c == '/' ==> dir@ =~= seq!['/']);
        c == '/'
    } else {
        false
    }
}

/// Whether `s` reads `lit`.
pub fn text_is(s: &str, lit: &str) -> (r: bool)
    ensures
        r == (s@ == lit@),
{
    String::from_str(s) == String::from_str(lit)
}

/// A path joined below any folder but the root is the folder, one slash and
/// the name, however long the folder; below the root it is the slash and the
/// name. The name always ends the path, right after a slash.
pub proof fn lemma_joined_shape(dir: Seq<char>, name: Seq<char>)
    ensures
        dir != seq!['/'] ==> joined(dir, name) == dir + seq!['/'] + name,
        dir == seq!['/'] ==> joined(dir, name) == seq!['/'] + name,
        joined(dir, name).len() == if dir == seq!['/'] { 1 + name.len() } else { dir.len() + 1 + name.len() },
        joined(dir, name).skip(joined(dir, name).len() - name.len()) == name,
        joined(dir, name)[joined(dir, name).len() - name.len() - 1] == '/',
{
    let j = joined(dir, name);
    assert(j.skip(j.len() - name.len()) =~= name);
}

/// Joins a folder and an entry name into one path.
pub fn join_path(dir: &str, name: &str) -> (r: String)
    ensures
        r@ == joined(dir@, name@),
        dir@ != seq!['/'] ==> r@ == dir@ + seq!['/'] + name@,
        dir@ == seq!['/'] ==> r@ == seq!['/'] + name@,
{
    let mut r = String::from_str(dir);
    if !is_root(dir) {
        r.append("/");
        proof {
            reveal_strlit("/");
        }
    }
    r.append(name);
    r
}


/// The first `n` characters of `s`, or all of `s` where it is shorter.
pub open spec fn prefix_chars(s: Seq<char>, n: nat) -> Seq<char> {
    if n < s.len() {
        s.take(n as int)
    } else {
        s
    }
}

/// The first `n` characters of `text`, as `text.chars().take(n).collect()` gives them.
pub fn take_chars(text: &str, n: usize) -> (r: String)
    ensures
        r@ == prefix_chars(text@, n as nat),
        r@.len() == if n < text@.len() { n as nat } else { text@.len() },
        r@ == text@.take(r@.len() as int),
{
    let len = text.unicode_len();
    let k = if n < len {
        n
    } else {
        len
    };
    let r = String::from_str(text.substring_char(0, k));
    assert(text@.subrange(0, len as int) =~= text@);
    r
}

/// `s` with every occurrence of `pat` replaced by `rep`, the occurrences taken
/// from left to right without overlap, as `str::replace` does for a pattern that
/// is not empty.
pub open spec fn replaced(s: Seq<char>, pat: Seq<char>, rep: Seq<char>) -> Seq<char>
    decreases s.len(),
{
    if pat.len() == 0 || s.len() < pat.len() {
        s
    } else if s.take(pat.len() as int) == pat {
        rep + replaced(s.skip(pat.len() as int), pat, rep)
    } else {
        seq![s[0]] + replaced(s.skip(1), pat, rep)
    }
}

proof fn lemma_replaced_short(s: Seq<char>, pat: Seq<char>, rep: Seq<char>)
    requires
        pat.len() > 0,
        s.len() < pat.len(),
        s.len() > 0,
    ensures
        replaced(s, pat, rep) == seq![s[0]] + replaced(s.skip(1), pat, rep),
{
    assert(s =~= seq![s[0]] + s.skip(1));
}

/// Whether `pat` occurs in `s` at position `i`.
pub open spec fn occurs_at(s: Seq<char>, pat: Seq<char>, i: int) -> bool {
    0 <= i && i + pat.len() <= s.len() && s.subrange(i, i + pat.len()) == pat
}

/// A text in which the pattern does not occur is left as it is.
pub proof fn lemma_replaced_without_pattern(s: Seq<char>, pat: Seq<char>, rep: Seq<char>)
    requires
        pat.len() > 0,
        forall|i: int| !#[trigger] occurs_at(s, pat, i),
    ensures
        replaced(s, pat, rep) == s,
    decreases s.len(),
{
    if s.len() >= pat.len() {
        assert(!occurs_at(s, pat, 0));
        assert(s.take(pat.len() as int) =~= s.subrange(0, pat.len() as int));
        let t = s.skip(1);
        assert forall|i: int| !#[trigger] occurs_at(t, pat, i) by {
            if occurs_at(t, pat, i) {
                assert(t.subrange(i, i + pat.len()) =~= s.subrange(i + 1, i + 1 + pat.len()));
                assert(occurs_at(s, pat, i + 1));
            }
        }
        lemma_replaced_without_pattern(t, pat, rep);
        assert(seq![s[0]] + t =~= s);
    }
}

/// The first characters of a text are a prefix of it, exactly as many as asked
/// or the whole text where it is shorter, and taking them again changes nothing.
pub proof fn lemma_prefix_chars(s: Seq<char>, n: nat)
    ensures
        prefix_chars(s, n).len() == if n < s.len() { n } else { s.len() },
        forall|i: int| 0 <= i < prefix_chars(s, n).len() ==> #[trigger] prefix_chars(s, n)[i] == s[i],
        prefix_chars(s, n).len() <= n,
        prefix_chars(s, n).len() <= s.len(),
        prefix_chars(s, n) == s.take(prefix_chars(s, n).len() as int),
        prefix_chars(prefix_chars(s, n), n) == prefix_chars(s, n),
{
    if n >= s.len() {
        assert(s.take(s.len() as int) =~= s);
    }
}

/// A text that starts with the pattern is replaced as the replacement
/// followed by the rest replaced, however long the text.
pub proof fn lemma_replaced_leading(pat: Seq<char>, tail: Seq<char>, rep: Seq<char>)
    requires
        pat.len() > 0,
    ensures
        replaced(pat + tail, pat, rep) == rep + replaced(tail, pat, rep),
{
    let s = pat + tail;
    assert(s.take(pat.len() as int) =~= pat);
    assert(s.skip(pat.len() as int) =~= tail);
}

/// A text whose first character does not begin an occurrence keeps that
/// character, followed by the rest replaced.
pub proof fn lemma_replaced_no_match_first(s: Seq<char>, pat: Seq<char>, rep: Seq<char>)
    requires
        pat.len() > 0,
        s.len() > 0,
        !occurs_at(s, pat, 0),
    ensures
        replaced(s, pat, rep) == seq![s[0]] + replaced(s.skip(1), pat, rep),
{
    if s.len() >= pat.len() {
        assert(s.take(pat.len() as int) =~= s.subrange(0, pat.len() as int));
    } else {
        lemma_replaced_short(s, pat, rep);
    }
}

/// The pattern followed by text without it is replaced as the replacement
/// followed by that text.
pub proof fn lemma_replaced_pattern_then_plain(pat: Seq<char>, tail: Seq<char>, rep: Seq<char>)
    requires
        pat.len() > 0,
        forall|i: int| !#[trigger] occurs_at(tail, pat, i),
    ensures
        replaced(pat + tail, pat, rep) == rep + tail,
{
    lemma_replaced_leading(pat, tail, rep);
    lemma_replaced_without_pattern(tail, pat, rep);
}

/// Replaces every occurrence of `pat` in `text` by `rep`.
pub fn replace_all(text: &str, pat: &str, rep: &str) -> (r: String)
    requires
        pat@.len() > 0,
    ensures
        r@ == replaced(text@, pat@, rep@),
{
    let n = text.unicode_len();
    let plen = pat.unicode_len();
    let pat_owned = String::from_str(pat);
    let mut r = String::new();
    let mut i: usize = 0;
    assert(text@.skip(0) =~= text@);
    assert(r@ + replaced(text@, pat@, rep@) =~= replaced(text@, pat@, rep@));
    while i < n
        invariant
            n == text@.len(),
            plen == pat@.len(),
            plen > 0,
            pat_owned@ == pat@,
            i <= n,
            replaced(text@, pat@, rep@) == r@ + replaced(text@.skip(i as int), pat@, rep@),
        decreases n - i,
    {
        let ghost rest = text@.skip(i as int);
        if n - i >= plen && String::from_str(text.substring_char(i, i + plen)) == pat_owned {
            assert(rest.take(plen as int) =~= text@.subrange(i as int, i + plen));
            assert(rest.skip(plen as int) =~= text@.skip(i + plen));
            r.append(rep);
            i = i + plen;
        } else {
            assert(rest.skip(1) =~= text@.skip(i + 1));
            assert(text@.subrange(i as int, i + 1) =~= seq![rest[0]]);
            if n - i >= plen {
                assert(rest.take(plen as int) =~= text@.subrange(i as int, i + plen));
            } else {
                proof {
                    lemma_replaced_short(rest, pat@, rep@);
                }
            }
            r.append(text.substring_char(i, i + 1));
            i = i + 1;
        }
    }
    assert(text@.skip(n as int) =~= Seq::<char>::empty());
    r
}

} // verus!
