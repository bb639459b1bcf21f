//! Rewrites, in serialized path text, each cubic command whose two control
//! points are written alike as the matching quadratic command.
use vstd::prelude::*;

verus! {

/// A cubic command: the letter and six numbers, each with an optional minus
/// sign and each after one white-space character; group 1 is the command
/// without the white space before it.
pub const CUBIC_COMMAND: &'static str = "(?i)\\s(C\\s-?[\\d\\.]+\\s-?[\\d\\.]+\\s-?[\\d\\.]+\\s-?[\\d\\.]+\\s-?[\\d\\.]+\\s-?[\\d\\.]+)";

/// The spans of capture group 1 in the successive matches of `pattern` in
/// `text`, or `None` where the pattern does not compile.
pub uninterp spec fn pattern_group_spans(pattern: Seq<char>, text: Seq<u8>) -> Option<
    Seq<Option<(usize, usize)>>,
>;

/// Relies on `regex::bytes::Regex::new` to compile `pattern` and on
/// `Regex::captures_iter` for the successive non-overlapping matches, of which
/// the span of group 1 is kept.
#[verifier::external_body]
fn group_spans(pattern: &str, text: &[u8]) -> (r: Option<Vec<Option<(usize, usize)>>>)
    ensures
        match r {
            Some(v) => pattern_group_spans(pattern@, text@) == Some(v@),
            None => pattern_group_spans(pattern@, text@) is None,
        },
{
    let re = regex::bytes::Regex::new(pattern).ok()?;
    Some(re.captures_iter(text).map(|c| c.get(1).map(|m| (m.start(), m.end()))).collect())
}

pub open spec fn space() -> u8 {
    32u8
}

/// The pieces of `s` between single spaces, empty pieces included.
pub open spec fn split_spaces(s: Seq<u8>) -> Seq<Seq<u8>>
    decreases s.len(),
{
    if s.len() == 0 {
        seq![Seq::empty()]
    } else {
        let rest = split_spaces(s.drop_last());
        if s.last() == space() {
            rest.push(Seq::empty())
        } else {
            rest.update(rest.len() - 1, rest.last().push(s.last()))
        }
    }
}

/// The pieces put back together, one space between each two.
pub open spec fn join_spaces(t: Seq<Seq<u8>>) -> Seq<u8>
    decreases t.len(),
{
    if t.len() == 0 {
        Seq::empty()
    } else if t.len() == 1 {
        t[0]
    } else {
        join_spaces(t.drop_last()).push(space()) + t.last()
    }
}

/// The letter that turns a cubic command into a quadratic one, keeping case.
pub open spec fn quad_letter(c: Seq<u8>) -> Option<u8> {
    if c == seq![67u8] {
        Some(81u8)
    } else if c == seq![99u8] {
        Some(113u8)
    } else {
        None
    }
}

/// A cubic command of seven pieces whose two control points are written
/// alike becomes a quadratic of five; any other list stays as it is.
pub open spec fn canonical_tokens(t: Seq<Seq<u8>>) -> Seq<Seq<u8>> {
    if t.len() == 7 && quad_letter(t[0]) is Some && t[1] == t[3] && t[2] == t[4] {
        seq![seq![quad_letter(t[0]).unwrap()], t[1], t[2], t[5], t[6]]
    } else {
        t
    }
}

/// Reads a quadratic command back as the cubic with its control point doubled.
pub open spec fn expand_quadratic(t: Seq<Seq<u8>>) -> Seq<Seq<u8>> {
    if t.len() == 5 && (t[0] == seq![81u8] || t[0] == seq![113u8]) {
        seq![if t[0] == seq![81u8] { seq![67u8] } else { seq![99u8] }, t[1], t[2], t[1], t[2], t[3], t[4]]
    } else {
        t
    }
}

pub open spec fn rewrites(cmd: Seq<u8>) -> bool {
    canonical_tokens(split_spaces(cmd)) != split_spaces(cmd)
}

/// The text of one command after the rewrite.
pub open spec fn canonical_command(cmd: Seq<u8>) -> Seq<u8> {
    if rewrites(cmd) {
        join_spaces(canonical_tokens(split_spaces(cmd)))
    } else {
        cmd
    }
}

/// The output so far and the position reached, after the first `k` spans.
/// A span that is missing, reaches back before the position reached or past
/// the text is passed over.
pub open spec fn canon_walk(text: Seq<u8>, spans: Seq<Option<(usize, usize)>>, k: int) -> (
    Seq<u8>,
    int,
)
    decreases k,
{
    if k <= 0 || k > spans.len() {
        (Seq::empty(), 0)
    } else {
        let prev = canon_walk(text, spans, k - 1);
        match spans[k - 1] {
            Some((s, e)) => if prev.1 <= s <= e <= text.len() {
                (
                    prev.0 + text.subrange(prev.1, s as int) + canonical_command(
                        text.subrange(s as int, e as int),
                    ),
                    e as int,
                )
            } else {
                prev
            },
            None => prev,
        }
    }
}

/// `text` with the commands at `spans` rewritten and everything else kept.
pub open spec fn canonical_text(text: Seq<u8>, spans: Seq<Option<(usize, usize)>>) -> Seq<u8> {
    let w = canon_walk(text, spans, spans.len() as int);
    w.0 + text.subrange(w.1, text.len() as int)
}

fn same_bytes(a: &Vec<u8>, b: &Vec<u8>) -> (r: bool)
    ensures
        r == (a@ == b@),
{
    if a.len() != b.len() {
        return false;
    }
    let mut i: usize = 0;
    while i < a.len()
        invariant
            a@.len() == b@.len(),
            i <= a@.len(),
            forall|j: int| 0 <= j < i ==> a@[j] == b@[j],
        decreases a@.len() - i,
    {
        if a[i] != b[i] {
            return false;
        }
        i = i + 1;
    }
    assert(a@ =~= b@);
    true
}

pub open spec fn token_views(t: Seq<Vec<u8>>) -> Seq<Seq<u8>> {
    t.map_values(|v: Vec<u8>| v@)
}

fn split_bytes(s: &[u8], from: usize, to: usize) -> (r: Vec<Vec<u8>>)
    requires
        from <= to <= s@.len(),
    ensures
        token_views(r@) == split_spaces(s@.subrange(from as int, to as int)),
{
    let mut done: Vec<Vec<u8>> = Vec::new();
    let mut cur: Vec<u8> = Vec::new();
    let mut i: usize = from;
    while i < to
        invariant
            from <= i <= to <= s@.len(),
            token_views(done@).push(cur@) == split_spaces(s@.subrange(from as int, i as int)),
        decreases to - i,
    {
        let ghost pre = s@.subrange(from as int, i as int);
        let ghost next = s@.subrange(from as int, i + 1);
        assert(next.drop_last() =~= pre);
        let ghost d0 = done@;
        if s[i] == 32u8 {
            let c = cur;
            done.push(c);
            cur = Vec::new();
            assert(token_views(done@) =~= token_views(d0).push(c@));
            assert(token_views(done@).push(cur@) =~= split_spaces(next));
        } else {
            cur.push(s[i]);
            assert(token_views(done@).push(cur@) =~= split_spaces(next));
        }
        i = i + 1;
    }
    let ghost d0 = done@;
    let c = cur;
    done.push(c);
    assert(token_views(done@) =~= token_views(d0).push(c@));
    done
}

fn append_bytes(out: &mut Vec<u8>, src: &[u8], from: usize, to: usize)
    requires
        from <= to <= src@.len(),
    ensures
        final(out)@ == old(out)@ + src@.subrange(from as int, to as int),
{
    let mut i: usize = from;
    while i < to
        invariant
            from <= i <= to <= src@.len(),
            out@ == old(out)@ + src@.subrange(from as int, i as int),
        decreases to - i,
    {
        out.push(src[i]);
        assert(src@.subrange(from as int, i + 1) =~= src@.subrange(from as int, i as int).push(
            src@[i as int],
        ));
        i = i + 1;
    }
}

proof fn lemma_join_five(t: Seq<Seq<u8>>)
    requires
        t.len() == 5,
    ensures
        join_spaces(t) == t[0] + seq![space()] + t[1] + seq![space()] + t[2] + seq![space()] + t[3]
            + seq![space()] + t[4],
{
    reveal_with_fuel(join_spaces, 6);
    assert(t.drop_last().drop_last().drop_last().drop_last() =~= seq![t[0]]);
    assert(join_spaces(t) =~= t[0] + seq![space()] + t[1] + seq![space()] + t[2] + seq![space()]
        + t[3] + seq![space()] + t[4]);
}

/// Appends the rewrite of the command `text[s..e]`.
fn push_command(out: &mut Vec<u8>, text: &[u8], s: usize, e: usize)
    requires
        s <= e <= text@.len(),
    ensures
        final(out)@ == old(out)@ + canonical_command(text@.subrange(s as int, e as int)),
{
    let ghost cmd = text@.subrange(s as int, e as int);
    let t = split_bytes(text, s, e);
    assert(t@.len() == split_spaces(cmd).len());
    if t.len() == 7 {
        assert(forall|j: int| 0 <= j < 7 ==> t@[j]@ == #[trigger] split_spaces(cmd)[j]);
        let c = &t[0];
        let letter: Option<u8> = if c.len() == 1 && c[0] == 67u8 {
            assert(c@ =~= seq![67u8]);
            Some(81u8)
        } else if c.len() == 1 && c[0] == 99u8 {
            assert(c@ =~= seq![99u8]);
            Some(113u8)
        } else {
            assert(c@ != seq![67u8] && c@ != seq![99u8]) by {
                if c@ == seq![67u8] || c@ == seq![99u8] {
                    assert(c@.len() == 1);
                }
            }
            None
        };
        if let Some(q) = letter {
            if same_bytes(&t[1], &t[3]) && same_bytes(&t[2], &t[4]) {
                let ghost toks = canonical_tokens(split_spaces(cmd));
                assert(toks.len() == 5);
                assert(rewrites(cmd));
                proof {
                    lemma_join_five(toks);
                }
                let ghost o0 = out@;
                out.push(q);
                out.push(32u8);
                append_bytes(out, t[1].as_slice(), 0, t[1].len());
                out.push(32u8);
                append_bytes(out, t[2].as_slice(), 0, t[2].len());
                out.push(32u8);
                append_bytes(out, t[5].as_slice(), 0, t[5].len());
                out.push(32u8);
                append_bytes(out, t[6].as_slice(), 0, t[6].len());
                assert(t@[1]@.subrange(0, t@[1]@.len() as int) =~= t@[1]@);
                assert(t@[2]@.subrange(0, t@[2]@.len() as int) =~= t@[2]@);
                assert(t@[5]@.subrange(0, t@[5]@.len() as int) =~= t@[5]@);
                assert(t@[6]@.subrange(0, t@[6]@.len() as int) =~= t@[6]@);
                assert(out@ =~= o0 + canonical_command(cmd));
                return;
            }
        }
    }
    append_bytes(out, text, s, e);
}

/// `text` with each cubic command found at `spans` whose control points are
/// written alike rewritten as a quadratic command; all other bytes are kept.
pub fn canonicalize_spans(text: &[u8], spans: &Vec<Option<(usize, usize)>>) -> (r: Vec<u8>)
    ensures
        r@ == canonical_text(text@, spans@),
{
    let mut out: Vec<u8> = Vec::new();
    let mut pos: usize = 0;
    let mut k: usize = 0;
    while k < spans.len()
        invariant
            k <= spans@.len(),
            (out@, pos as int) == canon_walk(text@, spans@, k as int),
            pos <= text@.len(),
        decreases spans@.len() - k,
    {
        proof {
            lemma_walk_in_text(text@, spans@, k as int);
        }
        match spans[k] {
            Some((s, e)) => {
                if pos <= s && s <= e && e <= text.len() {
                    append_bytes(&mut out, text, pos, s);
                    push_command(&mut out, text, s, e);
                    pos = e;
                }
            },
            None => {},
        }
        k = k + 1;
    }
    append_bytes(&mut out, text, pos, text.len());
    out
}

proof fn lemma_walk_in_text(text: Seq<u8>, spans: Seq<Option<(usize, usize)>>, k: int)
    ensures
        0 <= canon_walk(text, spans, k).1 <= text.len(),
    decreases k,
{
    if k > 0 && k <= spans.len() {
        lemma_walk_in_text(text, spans, k - 1);
    }
}

/// Serialized path text with each cubic command whose two control points are
/// written alike turned into the matching quadratic command; the text as it
/// is where the command pattern does not compile.
pub fn canonicalize_path_text(text: &[u8]) -> (r: Vec<u8>)
    ensures
        match pattern_group_spans(CUBIC_COMMAND@, text@) {
            Some(spans) => r@ == canonical_text(text@, spans),
            None => r@ == text@,
        },
{
    match group_spans(CUBIC_COMMAND, text) {
        Some(spans) => canonicalize_spans(text, &spans),
        None => {
            let mut out: Vec<u8> = Vec::new();
            append_bytes(&mut out, text, 0, text.len());
            assert(text@.subrange(0, text@.len() as int) =~= text@);
            out
        },
    }
}

pub open spec fn no_space(b: Seq<u8>) -> bool {
    forall|i: int| 0 <= i < b.len() ==> b[i] != space()
}

pub open spec fn total_len(t: Seq<Seq<u8>>) -> int
    decreases t.len(),
{
    if t.len() == 0 {
        0
    } else {
        total_len(t.drop_last()) + t.last().len()
    }
}

proof fn lemma_split_shape(s: Seq<u8>)
    ensures
        split_spaces(s).len() >= 1,
        forall|i: int| 0 <= i < split_spaces(s).len() ==> no_space(#[trigger] split_spaces(s)[i]),
    decreases s.len(),
{
    if s.len() > 0 {
        lemma_split_shape(s.drop_last());
        let rest = split_spaces(s.drop_last());
        if s.last() != space() {
            let l = rest.last().push(s.last());
            assert forall|i: int| 0 <= i < split_spaces(s).len() implies no_space(
                #[trigger] split_spaces(s)[i],
            ) by {
                if i == rest.len() - 1 {
                    assert(no_space(rest[i]));
                    assert(split_spaces(s)[i] == l);
                } else {
                    assert(split_spaces(s)[i] == rest[i]);
                }
            }
        } else {
            assert forall|i: int| 0 <= i < split_spaces(s).len() implies no_space(
                #[trigger] split_spaces(s)[i],
            ) by {
                if i < rest.len() {
                    assert(split_spaces(s)[i] == rest[i]);
                }
            }
        }
    }
}

proof fn lemma_join_split(s: Seq<u8>)
    ensures
        join_spaces(split_spaces(s)) == s,
    decreases s.len(),
{
    if s.len() > 0 {
        let p = s.drop_last();
        lemma_join_split(p);
        lemma_split_shape(p);
        let t = split_spaces(p);
        if s.last() == space() {
            assert(split_spaces(s).drop_last() =~= t);
            assert(s =~= p.push(space()) + Seq::<u8>::empty());
        } else {
            let t2 = split_spaces(s);
            if t.len() > 1 {
                assert(t2.drop_last() =~= t.drop_last());
                assert(t2.last() == t.last().push(s.last()));
                assert(p == join_spaces(t.drop_last()).push(space()) + t.last());
                assert(s =~= p.push(s.last()));
                assert(s =~= join_spaces(t.drop_last()).push(space()) + t.last().push(s.last()));
            } else {
                assert(s =~= t[0].push(s.last()));
            }
        }
    } else {
        assert(split_spaces(s) =~= seq![Seq::<u8>::empty()]);
    }
}

proof fn lemma_split_no_space(b: Seq<u8>)
    requires
        no_space(b),
    ensures
        split_spaces(b) == seq![b],
    decreases b.len(),
{
    if b.len() > 0 {
        lemma_split_no_space(b.drop_last());
        assert(b.last() != space());
        assert(b.drop_last().push(b.last()) =~= b);
        assert(split_spaces(b) =~= seq![b]);
    } else {
        assert(b =~= Seq::<u8>::empty());
    }
}

proof fn lemma_split_after_space(a: Seq<u8>, b: Seq<u8>)
    requires
        no_space(b),
    ensures
        split_spaces(a.push(space()) + b) == split_spaces(a).push(b),
    decreases b.len(),
{
    if b.len() > 0 {
        let b0 = b.drop_last();
        lemma_split_after_space(a, b0);
        assert((a.push(space()) + b).drop_last() =~= a.push(space()) + b0);
        assert((a.push(space()) + b).last() == b.last());
        assert(b.last() != space());
        assert(b0.push(b.last()) =~= b);
        assert(split_spaces(a.push(space()) + b) =~= split_spaces(a).push(b));
    } else {
        assert(b =~= Seq::<u8>::empty());
        assert(a.push(space()) + b =~= a.push(space()));
        assert(a.push(space()).drop_last() =~= a);
        assert(split_spaces(a).push(b) =~= split_spaces(a).push(Seq::empty()));
    }
}

proof fn lemma_split_join(t: Seq<Seq<u8>>)
    requires
        t.len() >= 1,
        forall|i: int| 0 <= i < t.len() ==> no_space(#[trigger] t[i]),
    ensures
        split_spaces(join_spaces(t)) == t,
    decreases t.len(),
{
    if t.len() == 1 {
        lemma_split_no_space(t[0]);
        assert(t =~= seq![t[0]]);
    } else {
        let u = t.drop_last();
        lemma_split_join(u);
        assert(no_space(t.last()));
        lemma_split_after_space(join_spaces(u), t.last());
        assert(u.push(t.last()) =~= t);
    }
}

proof fn lemma_join_len(t: Seq<Seq<u8>>)
    requires
        t.len() >= 1,
    ensures
        join_spaces(t).len() == total_len(t) + t.len() - 1,
    decreases t.len(),
{
    if t.len() > 1 {
        lemma_join_len(t.drop_last());
    } else {
        assert(total_len(t.drop_last()) == 0);
        assert(t.last() == t[0]);
    }
}

/// Reading a rewritten cubic command back, with the quadratic's control point
/// doubled, gives the pieces of the command it came from; the rewrite never
/// lengthens a command nor adds pieces to it.
pub proof fn lemma_command_round_trip(cmd: Seq<u8>)
    requires
        quad_letter(split_spaces(cmd)[0]) is Some,
    ensures
        expand_quadratic(split_spaces(canonical_command(cmd))) == split_spaces(cmd),
        split_spaces(canonical_command(cmd)).len() <= split_spaces(cmd).len(),
        canonical_command(cmd).len() <= cmd.len(),
{
    let t = split_spaces(cmd);
    lemma_split_shape(cmd);
    if rewrites(cmd) {
        let q = canonical_tokens(t);
        assert forall|i: int| 0 <= i < q.len() implies no_space(#[trigger] q[i]) by {
            if i == 0 {
                assert(q[0] == seq![quad_letter(t[0]).unwrap()]);
                assert(quad_letter(t[0]).unwrap() != space());
            } else if i == 1 {
                assert(no_space(t[1]));
            } else if i == 2 {
                assert(no_space(t[2]));
            } else if i == 3 {
                assert(no_space(t[5]));
            } else {
                assert(no_space(t[6]));
            }
        }
        lemma_split_join(q);
        if t[0] == seq![67u8] {
            assert(q[0] =~= seq![81u8]);
        } else {
            assert(t[0] == seq![99u8]);
            assert(q[0] =~= seq![113u8]);
            assert(q[0] != seq![81u8]) by {
                assert(q[0][0] != seq![81u8][0]);
            }
        }
        assert(expand_quadratic(q) =~= t);
        lemma_join_split(cmd);
        lemma_join_len(t);
        lemma_join_len(q);
        reveal_with_fuel(total_len, 8);
        assert(t[0].len() == 1);
    } else {
        assert(t[0] != seq![81u8] && t[0] != seq![113u8]) by {
            if t[0] == seq![67u8] {
                assert(t[0][0] != seq![81u8][0]);
                assert(t[0][0] != seq![113u8][0]);
            } else {
                assert(t[0] == seq![99u8]);
                assert(t[0][0] != seq![81u8][0]);
                assert(t[0][0] != seq![113u8][0]);
            }
        }
    }
}

/// Rewriting never lengthens the text.
pub proof fn lemma_canonical_not_longer(text: Seq<u8>, spans: Seq<Option<(usize, usize)>>)
    ensures
        canonical_text(text, spans).len() <= text.len(),
{
    lemma_walk_not_longer(text, spans, spans.len() as int);
    lemma_walk_in_text(text, spans, spans.len() as int);
}

proof fn lemma_walk_not_longer(text: Seq<u8>, spans: Seq<Option<(usize, usize)>>, k: int)
    ensures
        canon_walk(text, spans, k).0.len() <= canon_walk(text, spans, k).1,
    decreases k,
{
    if k > 0 && k <= spans.len() {
        lemma_walk_not_longer(text, spans, k - 1);
        lemma_walk_in_text(text, spans, k - 1);
        match spans[k - 1] {
            Some((s, e)) => {
                let prev = canon_walk(text, spans, k - 1);
                if prev.1 <= s <= e <= text.len() {
                    let cmd = text.subrange(s as int, e as int);
                    if rewrites(cmd) {
                        lemma_split_shape(cmd);
                        lemma_join_split(cmd);
                        let t = split_spaces(cmd);
                        let q = canonical_tokens(t);
                        lemma_join_len(t);
                        lemma_join_len(q);
                        reveal_with_fuel(total_len, 8);
                        assert(t[0].len() == 1);
                    }
                }
            },
            None => {},
        }
    }
}

} // verus!
