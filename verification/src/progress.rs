//! The progress store: a line-oriented record of the archives a run has fully
//! processed. The library parses the store's text, answers membership
//! queries, and derives the store's file name; reading and appending the file
//! itself is the application's work.

use vstd::prelude::*;
use crate::strtools::push_char;

verus! {

/// The position of the first newline in `s`, or `s.len()` if there is none.
pub open spec fn spec_find_nl(s: Seq<char>) -> int
    decreases s.len(),
{
    if s.len() == 0 {
        0
    } else if s[0] == '\n' {
        0
    } else {
        1 + spec_find_nl(s.drop_first())
    }
}

/// The lines of a progress store's text: the segments between newlines, with
/// no entry for the empty text after a trailing newline.
pub open spec fn spec_lines(s: Seq<char>) -> Seq<Seq<char>>
    decreases s.len(),
    via spec_lines_decreases
{
    if s.len() == 0 {
        Seq::empty()
    } else {
        let i = spec_find_nl(s);
        if i == s.len() {
            seq![s]
        } else {
            seq![s.take(i)] + spec_lines(s.skip(i + 1))
        }
    }
}

#[via_fn]
proof fn spec_lines_decreases(s: Seq<char>) {
    lemma_find_nl_bounds(s);
}

pub proof fn lemma_find_nl_bounds(s: Seq<char>)
    ensures
        0 <= spec_find_nl(s) <= s.len(),
    decreases s.len(),
{
    if s.len() > 0 && s[0] != '\n' {
        lemma_find_nl_bounds(s.drop_first());
    }
}

/// In a text with no newline, the first newline position is the length.
pub proof fn lemma_find_nl_absent(s: Seq<char>)
    requires
        forall|j: int| 0 <= j < s.len() ==> s[j] != '\n',
    ensures
        spec_find_nl(s) == s.len(),
    decreases s.len(),
{
    if s.len() > 0 {
        lemma_find_nl_absent(s.drop_first());
    }
}

/// The first newline of `a + '\n' + b` stands right after `a` when `a` holds
/// no newline itself.
pub proof fn lemma_find_nl_prefix(a: Seq<char>, b: Seq<char>)
    requires
        forall|j: int| 0 <= j < a.len() ==> a[j] != '\n',
    ensures
        spec_find_nl(a + seq!['\n'] + b) == a.len(),
    decreases a.len(),
{
    let s = a + seq!['\n'] + b;
    if a.len() == 0 {
        assert(s[0] == '\n');
    } else {
        assert(s[0] == a[0]);
        assert(s.drop_first() =~= a.drop_first() + seq!['\n'] + b);
        lemma_find_nl_prefix(a.drop_first(), b);
    }
}

/// Splitting off a complete first line: the lines of `a + '\n' + b` are `a`
/// followed by the lines of `b`, when `a` holds no newline.
pub proof fn lemma_lines_step(a: Seq<char>, b: Seq<char>)
    requires
        forall|j: int| 0 <= j < a.len() ==> a[j] != '\n',
    ensures
        spec_lines(a + seq!['\n'] + b) == seq![a] + spec_lines(b),
{
    let s = a + seq!['\n'] + b;
    lemma_find_nl_prefix(a, b);
    assert(s.len() == a.len() + 1 + b.len());
    assert(s.take(a.len() as int) =~= a);
    assert(s.skip(a.len() as int + 1) =~= b);
    assert(spec_lines(s) =~~= seq![a] + spec_lines(b));
}

/// The lines of a newline-free text: none if it is empty, itself otherwise.
pub proof fn lemma_lines_flat(a: Seq<char>)
    requires
        forall|j: int| 0 <= j < a.len() ==> a[j] != '\n',
    ensures
        spec_lines(a) == if a.len() == 0 {
            Seq::<Seq<char>>::empty()
        } else {
            seq![a]
        },
{
    lemma_find_nl_absent(a);
}

/// Positions before the first newline hold no newline.
pub proof fn lemma_find_nl_first(s: Seq<char>)
    ensures
        forall|j: int| 0 <= j < spec_find_nl(s) ==> s[j] != '\n',
    decreases s.len(),
{
    if s.len() > 0 && s[0] != '\n' {
        lemma_find_nl_first(s.drop_first());
        lemma_find_nl_bounds(s.drop_first());
        assert forall|j: int| 0 <= j < spec_find_nl(s) implies s[j] != '\n' by {
            if j > 0 {
                assert(s.drop_first()[j - 1] == s[j]);
            }
        }
    }
}

/// The first newline position, when inside the text, holds a newline.
pub proof fn lemma_find_nl_hit(s: Seq<char>)
    ensures
        spec_find_nl(s) < s.len() ==> s[spec_find_nl(s)] == '\n',
    decreases s.len(),
{
    if s.len() > 0 && s[0] != '\n' {
        lemma_find_nl_hit(s.drop_first());
        lemma_find_nl_bounds(s.drop_first());
        if spec_find_nl(s) < s.len() {
            assert(s.drop_first()[spec_find_nl(s.drop_first())] == s[spec_find_nl(s)]);
        }
    }
}

/// Law: appending one entry and a newline to a well-terminated store and
/// reloading it yields exactly the old entries followed by the new one — the
/// durability point of the incremental run.
pub proof fn lemma_progress_append(content: Seq<char>, entry: Seq<char>)
    requires
        forall|j: int| 0 <= j < entry.len() ==> entry[j] != '\n',
        entry.len() > 0,
        content.len() == 0 || content[content.len() - 1] == '\n',
    ensures
        spec_lines(content + entry + seq!['\n']) == spec_lines(content).push(entry),
    decreases content.len(),
{
    if content.len() == 0 {
        assert(content + entry + seq!['\n'] =~= entry + seq!['\n'] + Seq::<char>::empty());
        lemma_lines_step(entry, Seq::<char>::empty());
        assert(spec_lines(Seq::<char>::empty()) =~~= Seq::<Seq<char>>::empty());
        assert(seq![entry] + Seq::<Seq<char>>::empty() =~~= seq![entry]);
        assert(spec_lines(content) =~~= Seq::<Seq<char>>::empty());
        assert(spec_lines(content).push(entry) =~~= seq![entry]);
    } else {
        let i = spec_find_nl(content);
        lemma_find_nl_bounds(content);
        lemma_find_nl_first(content);
        lemma_find_nl_hit(content);
        assert(i < content.len()) by {
            if i == content.len() {
                assert(content[content.len() - 1] != '\n');
            }
        }
        let head = content.take(i);
        let rest = content.skip(i + 1);
        assert(content =~= head + seq!['\n'] + rest);
        assert forall|j: int| 0 <= j < head.len() implies head[j] != '\n' by {
            assert(head[j] == content[j]);
        }
        lemma_lines_step(head, rest);
        assert(spec_lines(content) == seq![head] + spec_lines(rest));
        assert(content + entry + seq!['\n'] =~= head + seq!['\n'] + (rest + entry + seq!['\n']));
        lemma_lines_step(head, rest + entry + seq!['\n']);
        assert(rest.len() == 0 || rest[rest.len() - 1] == '\n') by {
            if rest.len() > 0 {
                assert(rest[rest.len() - 1] == content[content.len() - 1]);
            }
        }
        lemma_progress_append(rest, entry);
        assert(seq![head] + spec_lines(rest).push(entry) =~~= (seq![head] + spec_lines(
            rest,
        )).push(entry));
    }
}

/// Splits a progress store's text into its recorded entries, one per line.
pub fn parse_progress(s: &str) -> (out: Vec<String>)
    ensures
        out.deep_view() == spec_lines(s@),
{
    let n: usize = s.unicode_len();
    let mut out: Vec<String> = Vec::new();
    let mut cur: String = String::new();
    let mut i: usize = 0;
    proof {
        assert(cur@ + s@.skip(0) =~= s@);
        assert(out.deep_view() + spec_lines(s@) =~~= spec_lines(s@));
    }
    while i < n
        invariant
            n == s@.len(),
            0 <= i <= n,
            forall|j: int| 0 <= j < cur@.len() ==> cur@[j] != '\n',
            spec_lines(s@) == out.deep_view() + spec_lines(cur@ + s@.skip(i as int)),
        decreases n - i,
    {
        let ghost prev_out = out.deep_view();
        let ghost prev_cur = cur@;
        let c = s.get_char(i);
        proof {
            assert(s@.skip(i as int) =~= seq![s@[i as int]] + s@.skip(i + 1));
        }
        if c == '\n' {
            proof {
                assert(prev_cur + s@.skip(i as int) =~= prev_cur + seq!['\n'] + s@.skip(i + 1));
                lemma_lines_step(prev_cur, s@.skip(i + 1));
            }
            out.push(cur);
            cur = String::new();
            proof {
                assert(out.deep_view() =~~= prev_out.push(prev_cur));
                assert(out.deep_view() + spec_lines(cur@ + s@.skip(i + 1)) =~~= prev_out + (
                seq![prev_cur] + spec_lines(s@.skip(i + 1))));
                assert(cur@ + s@.skip(i + 1) =~= s@.skip(i + 1));
            }
        } else {
            push_char(&mut cur, c);
            proof {
                assert(cur@ + s@.skip(i + 1) =~= prev_cur + s@.skip(i as int));
            }
        }
        i = i + 1;
    }
    proof {
        assert(cur@ + s@.skip(n as int) =~= cur@);
        lemma_lines_flat(cur@);
    }
    if cur.unicode_len() > 0 {
        let ghost prev_out = out.deep_view();
        let ghost prev_cur = cur@;
        out.push(cur);
        proof {
            assert(out.deep_view() =~~= prev_out.push(prev_cur));
            assert(prev_out + seq![prev_cur] =~~= prev_out.push(prev_cur));
        }
    } else {
        proof {
            assert(out.deep_view() + Seq::<Seq<char>>::empty() =~~= out.deep_view());
        }
    }
    out
}

/// Whether the store already records `path`.
pub open spec fn spec_recorded(entries: Seq<Seq<char>>, path: Seq<char>) -> bool {
    exists|i: int| 0 <= i < entries.len() && entries[i] == path
}

/// Answers whether `path` is among the recorded entries: a recorded archive
/// is skipped on resume.
pub fn is_recorded(entries: &Vec<String>, path: &String) -> (r: bool)
    ensures
        r == spec_recorded(entries.deep_view(), path@),
{
    let n = entries.len();
    let mut i: usize = 0;
    while i < n
        invariant
            0 <= i <= n,
            n == entries@.len(),
            forall|j: int| 0 <= j < i ==> entries.deep_view()[j] != path@,
        decreases n - i,
    {
        if entries[i] == *path {
            proof {
                assert(entries.deep_view()[i as int] == path@);
            }
            return true;
        }
        proof {
            assert(entries.deep_view()[i as int] == entries@[i as int]@);
        }
        i = i + 1;
    }
    false
}

/// The progress store's file name for a configuration file: the
/// configuration's base name followed by a fixed suffix.
pub open spec fn spec_progress_file_name(config_stem: Seq<char>) -> Seq<char> {
    config_stem + "_progress.txt"@
}

/// Derives the progress store's file name from the configuration file's base
/// name.
pub fn progress_file_name(config_stem: &str) -> (r: String)
    ensures
        r@ == spec_progress_file_name(config_stem@),
{
    let owned: String = config_stem.to_owned();
    owned.concat("_progress.txt")
}

} // verus!
