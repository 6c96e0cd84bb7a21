//! Line-oriented text: splitting on `'\n'`, joining, and separator
//! normalisation. The M3U codec and the merge atom codec are built on these.

use vstd::prelude::*;

verus! {

/// The segments of `s` between `'\n'` characters. There is always at least
/// one segment; a trailing newline yields a final empty segment.
pub open spec fn split_nl(s: Seq<char>) -> Seq<Seq<char>>
    decreases s.len(),
{
    if s.len() == 0 {
        seq![Seq::<char>::empty()]
    } else if s[0] == '\n' {
        seq![Seq::<char>::empty()] + split_nl(s.drop_first())
    } else {
        let rest = split_nl(s.drop_first());
        seq![seq![s[0]] + rest[0]] + rest.drop_first()
    }
}

pub proof fn lemma_split_nl_nonempty(s: Seq<char>)
    ensures
        split_nl(s).len() >= 1,
    decreases s.len(),
{
    if s.len() != 0 {
        lemma_split_nl_nonempty(s.drop_first());
    }
}

/// Splitting after one line and its newline yields that line, then the
/// split of the rest.
pub proof fn lemma_split_nl_line(line: Seq<char>, rest: Seq<char>)
    requires
        forall|i: int| 0 <= i < line.len() ==> line[i] != '\n',
    ensures
        split_nl(line + seq!['\n'] + rest) =~~= seq![line] + split_nl(rest),
    decreases line.len(),
{
    let s = line + seq!['\n'] + rest;
    lemma_split_nl_nonempty(rest);
    if line.len() == 0 {
        assert(s =~= seq!['\n'] + rest);
        assert(s.drop_first() =~= rest);
    } else {
        assert(s[0] == line[0]);
        assert(s[0] != '\n');
        lemma_split_nl_line(line.drop_first(), rest);
        assert(s.drop_first() =~= line.drop_first() + seq!['\n'] + rest);
        let r = split_nl(s.drop_first());
        assert(r =~~= seq![line.drop_first()] + split_nl(rest));
        assert(r[0] == line.drop_first());
        assert(seq![line[0]] + r[0] =~= line);
        assert(r.drop_first() =~= split_nl(rest));
    }
}

/// How appending one character changes the split: a newline opens a new
/// empty segment; any other character extends the last segment.
pub proof fn lemma_split_nl_push(s: Seq<char>, c: char)
    ensures
        split_nl(s).len() >= 1,
        c == '\n' ==> split_nl(s.push(c)) =~~= split_nl(s).push(Seq::<char>::empty()),
        c != '\n' ==> split_nl(s.push(c)) =~~= split_nl(s).update(
            split_nl(s).len() - 1,
            split_nl(s).last().push(c),
        ),
    decreases s.len(),
{
    lemma_split_nl_nonempty(s);
    if s.len() == 0 {
        assert(s.push(c).drop_first() =~= Seq::<char>::empty());
        assert(s.push(c)[0] == c);
        if c == '\n' {
            assert(split_nl(Seq::<char>::empty()) =~~= seq![Seq::<char>::empty()]);
            assert(split_nl(s.push(c)) =~~= seq![Seq::<char>::empty()] + split_nl(
                s.push(c).drop_first(),
            ));
            assert(split_nl(s.push(c)) =~~= seq![Seq::<char>::empty(), Seq::<char>::empty()]);
            assert(split_nl(s).push(Seq::<char>::empty()) =~~= seq![
                Seq::<char>::empty(),
                Seq::<char>::empty(),
            ]);
        }
        if c != '\n' {
            assert(seq![c] + split_nl(Seq::<char>::empty())[0] =~= seq![c]);
            assert(split_nl(s).last() =~= Seq::<char>::empty());
            assert(split_nl(s.push(c)) =~~= seq![seq![c]]);
            assert(split_nl(s).update(0, split_nl(s).last().push(c)) =~~= seq![seq![c]]);
        }
    } else {
        lemma_split_nl_push(s.drop_first(), c);
        lemma_split_nl_nonempty(s.drop_first());
        assert(s.push(c).drop_first() =~= s.drop_first().push(c));
        assert(s.push(c)[0] == s[0]);
        if s[0] == '\n' {
            if c == '\n' {
                let r = split_nl(s.drop_first());
                let rp = split_nl(s.drop_first().push(c));
                assert(rp =~~= r.push(Seq::<char>::empty()));
                assert(split_nl(s.push(c)) =~~= seq![Seq::<char>::empty()] + r.push(
                    Seq::<char>::empty(),
                ));
                assert(split_nl(s).push(Seq::<char>::empty()) =~~= seq![Seq::<char>::empty()]
                    + r.push(Seq::<char>::empty()));
            }
            if c != '\n' {
                let r = split_nl(s.drop_first());
                let rp = split_nl(s.drop_first().push(c));
                assert(rp =~~= r.update(r.len() - 1, r.last().push(c)));
                assert((seq![Seq::<char>::empty()] + rp) =~~= (seq![Seq::<char>::empty()]
                    + r).update((seq![Seq::<char>::empty()] + r).len() - 1, (seq![
                    Seq::<char>::empty(),
                ] + r).last().push(c)));
            }
        } else {
            let r = split_nl(s.drop_first());
            let rp = split_nl(s.drop_first().push(c));
            if c == '\n' {
                assert(rp =~~= r.push(Seq::<char>::empty()));
                assert(rp[0] == r[0]);
                assert(rp.drop_first() =~~= r.drop_first().push(Seq::<char>::empty()));
                assert(split_nl(s.push(c)) =~~= seq![seq![s[0]] + r[0]] + r.drop_first().push(
                    Seq::<char>::empty(),
                ));
                assert(split_nl(s).push(Seq::<char>::empty()) =~~= seq![seq![s[0]] + r[0]]
                    + r.drop_first().push(Seq::<char>::empty()));
            } else {
                assert(rp =~~= r.update(r.len() - 1, r.last().push(c)));
                if r.len() == 1 {
                    assert(rp[0] == r[0].push(c));
                    assert(rp.drop_first() =~~= r.drop_first());
                    assert(split_nl(s.push(c)) =~~= seq![seq![s[0]] + r[0].push(c)]);
                    assert(seq![s[0]] + r[0].push(c) =~= (seq![s[0]] + r[0]).push(c));
                    assert(split_nl(s) =~~= seq![seq![s[0]] + r[0]]);
                } else {
                    assert(rp[0] == r[0]);
                    assert(rp.drop_first() =~~= r.drop_first().update(r.drop_first().len() - 1,
                        r.last().push(c)));
                    assert(split_nl(s.push(c)) =~~= seq![seq![s[0]] + r[0]]
                        + r.drop_first().update(r.drop_first().len() - 1, r.last().push(c)));
                    assert(split_nl(s).update(split_nl(s).len() - 1, split_nl(s).last().push(c))
                        =~~= seq![seq![s[0]] + r[0]] + r.drop_first().update(
                        r.drop_first().len() - 1,
                        r.last().push(c),
                    ));
                }
            }
        }
    }
}

/// Split `s` into its `'\n'`-separated segments.
pub fn split_lines(s: &str) -> (r: Vec<String>)
    ensures
        r.deep_view() == split_nl(s@),
{
    let len = s.unicode_len();
    let mut done: Vec<String> = Vec::new();
    let mut current: String = String::new();
    let mut i: usize = 0;
    while i < len
        invariant
            i <= len,
            len == s@.len(),
            done.deep_view().push(current@) =~~= split_nl(s@.subrange(0, i as int)),
        decreases len - i,
    {
        let c = s.get_char(i);
        proof {
            lemma_split_nl_push(s@.subrange(0, i as int), c);
            assert(s@.subrange(0, i + 1) =~= s@.subrange(0, i as int).push(s@[i as int]));
        }
        if c == '\n' {
            done.push(current);
            current = String::new();
        } else {
            current.push(c);
        }
        proof {
            assert(done.deep_view().push(current@) =~~= split_nl(s@.subrange(0, i + 1)));
        }
        i += 1;
    }
    proof {
        assert(s@.subrange(0, len as int) =~= s@);
    }
    done.push(current);
    proof {
        assert(done.deep_view() =~~= split_nl(s@));
    }
    done
}

/// A line with a final carriage return dropped: `"\r\n"`-separated input
/// splits on `'\n'` into lines that may carry a trailing `'\r'`.
pub open spec fn trim_cr(l: Seq<char>) -> Seq<char> {
    if l.len() > 0 && l.last() == '\r' {
        l.drop_last()
    } else {
        l
    }
}

/// Drop a final carriage return, if any.
pub fn trim_cr_exec(l: &str) -> (r: String)
    ensures
        r@ == trim_cr(l@),
{
    let len = l.unicode_len();
    if len > 0 && l.get_char(len - 1) == '\r' {
        let t = l.substring_char(0, len - 1);
        proof {
            assert(l@.subrange(0, l@.len() - 1) =~= l@.drop_last());
        }
        t.to_owned()
    } else {
        l.to_owned()
    }
}

/// The `'\n'`-separated lines of `s`, each with a trailing `'\r'` dropped.
pub open spec fn crlf_lines(s: Seq<char>) -> Seq<Seq<char>> {
    split_nl(s).map(|i: int, l: Seq<char>| trim_cr(l))
}

/// Split `s` into lines, accepting both `"\r\n"` and `"\n"` separators.
pub fn crlf_split(s: &str) -> (r: Vec<String>)
    ensures
        r.deep_view() == crlf_lines(s@),
{
    let raw = split_lines(s);
    let mut out: Vec<String> = Vec::new();
    let mut i: usize = 0;
    while i < raw.len()
        invariant
            i <= raw@.len(),
            raw.deep_view() == split_nl(s@),
            out.deep_view() =~~= split_nl(s@).map(|k: int, l: Seq<char>| trim_cr(l)).subrange(
                0,
                i as int,
            ),
        decreases raw@.len() - i,
    {
        let t = trim_cr_exec(raw[i].as_str());
        proof {
            let m = split_nl(s@).map(|k: int, l: Seq<char>| trim_cr(l));
            assert(raw.deep_view()[i as int] == raw@[i as int]@);
            assert(t@ == m[i as int]);
            assert(m.subrange(0, i + 1) =~= m.subrange(0, i as int).push(m[i as int]));
        }
        out.push(t);
        i += 1;
    }
    proof {
        assert(out.deep_view() =~~= crlf_lines(s@));
    }
    out
}

} // verus!
