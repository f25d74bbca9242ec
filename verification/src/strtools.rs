//! Verified string utilities: separator normalization, decimal rendering of
//! ordinals, path joining, and splitting a progress file into lines.

use vstd::prelude::*;

verus! {

/// Relies on `String::push` from std: appends exactly one character.
#[verifier::external_body]
pub fn push_char(s: &mut String, c: char)
    ensures
        final(s)@ == old(s)@.push(c),
{
    s.push(c);
}

/// A path with every backslash replaced by a forward slash.
pub open spec fn spec_normalize(s: Seq<char>) -> Seq<char> {
    s.map_values(|c: char| if c == '\\' { '/' } else { c })
}

/// Normalizes a path's directory separators to forward slashes.
pub fn normalize_separators(s: &str) -> (r: String)
    ensures
        r@ == spec_normalize(s@),
{
    let n: usize = s.unicode_len();
    let mut out: String = String::new();
    let mut i: usize = 0;
    while i < n
        invariant
            n == s@.len(),
            0 <= i <= n,
            out@ == spec_normalize(s@.take(i as int)),
        decreases n - i,
    {
        let c = s.get_char(i);
        if c == '\\' {
            push_char(&mut out, '/');
        } else {
            push_char(&mut out, c);
        }
        i = i + 1;
        proof {
            assert(s@.take(i as int) =~= s@.take(i - 1).push(s@[i - 1]));
            assert(out@ =~= spec_normalize(s@.take(i as int)));
        }
    }
    proof {
        assert(s@.take(n as int) =~= s@);
    }
    out
}

/// The decimal digit character for a value below ten.
pub open spec fn spec_digit_char(d: int) -> char {
    if d == 0 {
        '0'
    } else if d == 1 {
        '1'
    } else if d == 2 {
        '2'
    } else if d == 3 {
        '3'
    } else if d == 4 {
        '4'
    } else if d == 5 {
        '5'
    } else if d == 6 {
        '6'
    } else if d == 7 {
        '7'
    } else if d == 8 {
        '8'
    } else {
        '9'
    }
}

/// The decimal rendering of a natural number, most significant digit first.
pub open spec fn spec_decimal(n: nat) -> Seq<char>
    decreases n,
{
    if n < 10 {
        seq![spec_digit_char(n as int)]
    } else {
        spec_decimal(n / 10).push(spec_digit_char((n % 10) as int))
    }
}

fn digit_char(d: u64) -> (c: char)
    requires
        d < 10,
    ensures
        c == spec_digit_char(d as int),
{
    if d == 0 {
        '0'
    } else if d == 1 {
        '1'
    } else if d == 2 {
        '2'
    } else if d == 3 {
        '3'
    } else if d == 4 {
        '4'
    } else if d == 5 {
        '5'
    } else if d == 6 {
        '6'
    } else if d == 7 {
        '7'
    } else if d == 8 {
        '8'
    } else {
        '9'
    }
}

/// Renders a number in decimal, as the `index` placeholder requires.
pub fn u64_to_string(n: u64) -> (r: String)
    ensures
        r@ == spec_decimal(n as nat),
{
    let mut digits: Vec<char> = Vec::new();
    let mut rest: u64 = n;
    proof {
        assert(spec_decimal(n as nat) =~= spec_decimal(n as nat) + digits@.reverse());
    }
    loop
        invariant_except_break
            spec_decimal(n as nat) == spec_decimal(rest as nat) + digits@.reverse(),
        ensures
            spec_decimal(n as nat) == digits@.reverse(),
        decreases rest,
    {
        let ghost before = digits@;
        let d = rest % 10;
        let c = digit_char(d);
        digits.push(c);
        proof {
            assert(digits@.reverse() =~= seq![c] + before.reverse());
        }
        if rest < 10 {
            proof {
                assert(spec_decimal(rest as nat) =~= seq![c]);
                assert(spec_decimal(n as nat) =~= digits@.reverse());
            }
            break;
        }
        proof {
            assert(spec_decimal(rest as nat) == spec_decimal((rest / 10) as nat).push(
                spec_digit_char((rest % 10) as int),
            ));
            assert(spec_decimal((rest / 10) as nat).push(c) =~= spec_decimal((rest / 10) as nat)
                + seq![c]);
            assert(spec_decimal((rest / 10) as nat) + seq![c] + before.reverse()
                =~= spec_decimal((rest / 10) as nat) + (seq![c] + before.reverse()));
            assert(spec_decimal(n as nat) == spec_decimal((rest / 10) as nat) + digits@.reverse());
        }
        rest = rest / 10;
    }
    let mut out: String = String::new();
    let mut i: usize = digits.len();
    while i > 0
        invariant
            i <= digits@.len(),
            spec_decimal(n as nat) == digits@.reverse(),
            out@ == digits@.reverse().take(digits@.len() - i),
        decreases i,
    {
        i = i - 1;
        let c = digits[i];
        push_char(&mut out, c);
        proof {
            assert(digits@.reverse()[digits@.len() - i - 1] == digits@[i as int]);
            assert(out@ =~= digits@.reverse().take(digits@.len() - i));
        }
    }
    proof {
        assert(digits@.reverse().take(digits@.len() as int) =~= digits@.reverse());
    }
    out
}

/// Joining the destination root with a rule's relative output path: an
/// absolute relative part stands alone; otherwise the two are joined with a
/// single separator.
pub open spec fn spec_join_path(dest: Seq<char>, rel: Seq<char>) -> Seq<char> {
    if dest.len() == 0 || (rel.len() > 0 && rel[0] == '/') {
        rel
    } else if dest[dest.len() - 1] == '/' {
        dest + rel
    } else {
        dest + seq!['/'] + rel
    }
}

/// Joins the destination root with a relative output path.
pub fn join_path(dest: &str, rel: &str) -> (r: String)
    ensures
        r@ == spec_join_path(dest@, rel@),
{
    let dlen: usize = dest.unicode_len();
    let rlen: usize = rel.unicode_len();
    if dlen == 0 || (rlen > 0 && rel.get_char(0) == '/') {
        let r = rel.to_owned();
        proof {
            assert(r@ =~= spec_join_path(dest@, rel@));
        }
        r
    } else if dest.get_char(dlen - 1) == '/' {
        let r = dest.to_owned().concat(rel);
        proof {
            assert(r@ =~= spec_join_path(dest@, rel@));
        }
        r
    } else {
        let mut r = dest.to_owned();
        push_char(&mut r, '/');
        let r = r.concat(rel);
        proof {
            assert(r@ =~= spec_join_path(dest@, rel@));
        }
        r
    }
}

/// The position of the last occurrence of `c` in `s`, or `-1` if `c` does not
/// occur.
pub open spec fn spec_rfind(s: Seq<char>, c: char) -> int
    decreases s.len(),
{
    if s.len() == 0 {
        -1
    } else if s[s.len() - 1] == c {
        s.len() - 1
    } else {
        spec_rfind(s.drop_last(), c)
    }
}

/// The last occurrence holds `c`, and nothing after it does.
pub proof fn lemma_rfind_props(s: Seq<char>, c: char)
    ensures
        -1 <= spec_rfind(s, c) < s.len(),
        spec_rfind(s, c) >= 0 ==> s[spec_rfind(s, c)] == c,
        forall|j: int| spec_rfind(s, c) < j < s.len() ==> s[j] != c,
    decreases s.len(),
{
    if s.len() > 0 && s[s.len() - 1] != c {
        lemma_rfind_props(s.drop_last(), c);
        assert forall|j: int| spec_rfind(s, c) < j < s.len() implies s[j] != c by {
            if j < s.len() - 1 {
                assert(s.drop_last()[j] == s[j]);
            }
        }
    }
}

fn rfind_char(s: &str, c: char) -> (r: Option<usize>)
    ensures
        r matches Some(i) ==> i == spec_rfind(s@, c) && i < s@.len(),
        r is None ==> spec_rfind(s@, c) == -1,
{
    proof {
        lemma_rfind_props(s@, c);
    }
    let n: usize = s.unicode_len();
    let mut i: usize = n;
    while i > 0
        invariant
            0 <= i <= n,
            n == s@.len(),
            forall|j: int| i <= j < n ==> s@[j] != c,
            -1 <= spec_rfind(s@, c) < s@.len(),
            spec_rfind(s@, c) >= 0 ==> s@[spec_rfind(s@, c)] == c,
            forall|j: int| spec_rfind(s@, c) < j < s@.len() ==> s@[j] != c,
        decreases i,
    {
        i = i - 1;
        if s.get_char(i) == c {
            proof {
                assert(spec_rfind(s@, c) >= i);
                assert(spec_rfind(s@, c) <= i);
            }
            return Some(i);
        }
    }
    proof {
        if spec_rfind(s@, c) >= 0 {
            assert(s@[spec_rfind(s@, c)] == c);
        }
    }
    None
}

/// The configuration file's base name without its final extension: what
/// stands after the last forward slash, cut before its last dot (a name that
/// is nothing but an extension, or has no dot at all, stays whole).
pub open spec fn spec_file_stem(path: Seq<char>) -> Seq<char> {
    let base = path.skip(spec_rfind(path, '/') + 1);
    let d = spec_rfind(base, '.');
    if d <= 0 {
        base
    } else {
        base.take(d)
    }
}

/// Derives the configuration file's stem, the base of the progress store's
/// name.
pub fn file_stem(path: &str) -> (r: String)
    ensures
        r@ == spec_file_stem(path@),
{
    let n: usize = path.unicode_len();
    let start: usize = match rfind_char(path, '/') {
        Some(i) => i + 1,
        None => 0,
    };
    proof {
        lemma_rfind_props(path@, '/');
        assert(start == spec_rfind(path@, '/') + 1);
    }
    let base: &str = path.substring_char(start, n);
    proof {
        assert(base@ =~= path@.skip(start as int));
    }
    match rfind_char(base, '.') {
        Some(i) => {
            if i > 0 {
                let r = base.substring_char(0, i).to_owned();
                proof {
                    assert(r@ =~= base@.take(i as int));
                }
                r
            } else {
                base.to_owned()
            }
        },
        None => base.to_owned(),
    }
}

} // verus!
