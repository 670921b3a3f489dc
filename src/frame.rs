//! The text frame: a start line, header lines, an `End:` line and an optional body,
//! all lines ending in CRLF.
use vstd::prelude::*;
use crate::error::RabbitError;
use crate::num::all_digits;
use crate::text::{
    char_pos, chars_of, crlf, find_char, is_space, is_trimmed, join_lines, line_end, lines, no_crlf,
    no_space, slice_string, trim, trim_range, views, words, words_in, crlf_at, line_len,
    lemma_line_len, lemma_char_pos_exact, lemma_token_len_exact, lemma_trim_start_exact,
    lemma_trim_end_exact, lemma_line_len_exact, trim_start, lemma_char_pos_bound,
};

verus! {

broadcast use vstd::string::group_string_axioms;

/// What a frame means: its verb, arguments, header mapping and body.
pub struct FrameModel {
    pub verb: Seq<char>,
    pub args: Seq<Seq<char>>,
    pub headers: Map<Seq<char>, Seq<char>>,
    pub body: Option<Seq<char>>,
}

/// A protocol frame. Header keys are case-sensitive; a later entry for a key
/// hides an earlier one.
#[derive(Debug, Clone)]
pub struct Frame {
    pub verb: String,
    pub args: Vec<String>,
    pub headers: Vec<(String, String)>,
    pub body: Option<String>,
}

/// The line that ends the header block.
pub open spec fn end_line() -> Seq<char> {
    seq!['E', 'n', 'd', ':']
}

/// Header entries as pairs of character sequences.
pub open spec fn pair_views(hs: Seq<(String, String)>) -> Seq<(Seq<char>, Seq<char>)> {
    hs.map_values(|e: (String, String)| (e.0@, e.1@))
}

/// No two header entries share a key.
pub open spec fn keys_distinct(hs: Seq<(Seq<char>, Seq<char>)>) -> bool {
    forall|i: int, j: int| 0 <= i < j < hs.len() ==> (#[trigger] hs[i]).0 != (#[trigger] hs[j]).0
}

/// The mapping that a list of header entries denotes: later entries win.
pub open spec fn map_of(hs: Seq<(Seq<char>, Seq<char>)>) -> Map<Seq<char>, Seq<char>>
    decreases hs.len(),
{
    if hs.len() == 0 {
        Map::empty()
    } else {
        map_of(hs.drop_last()).insert(hs.last().0, hs.last().1)
    }
}

impl View for Frame {
    type V = FrameModel;

    open spec fn view(&self) -> FrameModel {
        FrameModel {
            verb: self.verb@,
            args: views(self.args@),
            headers: map_of(pair_views(self.headers@)),
            body: match self.body {
                Some(b) => Some(b@),
                None => None,
            },
        }
    }
}

/// A header line as written: `Key: Value`.
pub open spec fn header_line(h: (Seq<char>, Seq<char>)) -> Seq<char> {
    h.0 + seq![':', ' '] + h.1
}

/// The header block: each header line followed by a line break.
pub open spec fn headers_text(hs: Seq<(Seq<char>, Seq<char>)>) -> Seq<char>
    decreases hs.len(),
{
    if hs.len() == 0 {
        seq![]
    } else {
        header_line(hs[0]) + crlf() + headers_text(hs.drop_first())
    }
}

/// The arguments of the start line, each preceded by a space.
pub open spec fn args_text(args: Seq<Seq<char>>) -> Seq<char>
    decreases args.len(),
{
    if args.len() == 0 {
        seq![]
    } else {
        seq![' '] + args[0] + args_text(args.drop_first())
    }
}

/// The wire text of a frame.
pub open spec fn frame_text(f: Frame) -> Seq<char> {
    f.verb@ + args_text(views(f.args@)) + crlf() + headers_text(pair_views(f.headers@))
        + end_line() + crlf() + match f.body {
        Some(b) => b@,
        None => Seq::<char>::empty(),
    }
}

/// The header a line carries, if it has a colon: the trimmed text before and after it.
pub open spec fn parse_header(line: Seq<char>) -> Option<(Seq<char>, Seq<char>)> {
    let c = char_pos(line, ':');
    if c < line.len() {
        Some((trim(line.take(c as int)), trim(line.skip(c + 1int))))
    } else {
        None
    }
}

/// The mapping that a run of header lines denotes; lines without a colon are dropped.
pub open spec fn lines_map(ls: Seq<Seq<char>>) -> Map<Seq<char>, Seq<char>>
    decreases ls.len(),
{
    if ls.len() == 0 {
        Map::empty()
    } else {
        match parse_header(ls.last()) {
            Some(h) => lines_map(ls.drop_last()).insert(h.0, h.1),
            None => lines_map(ls.drop_last()),
        }
    }
}

/// Index of the first `End:` line, or the number of lines when there is none.
pub open spec fn end_pos(ls: Seq<Seq<char>>) -> nat
    decreases ls.len(),
{
    if ls.len() == 0 || ls[0] == end_line() {
        0
    } else {
        1 + end_pos(ls.drop_first())
    }
}

/// The start line's words begin with a status code: a number and one more word.
pub open spec fn is_status_start(w: Seq<Seq<char>>) -> bool {
    w.len() >= 2 && all_digits(w[0])
}

/// The verb that the words of a start line give: a status code with the word after it
/// (`200 HELLO`), or else the first word.
pub open spec fn start_verb(w: Seq<Seq<char>>) -> Seq<char> {
    if is_status_start(w) {
        w[0] + seq![' '] + w[1]
    } else {
        w[0]
    }
}

/// The arguments that the words of a start line give: the words after the verb.
pub open spec fn start_args(w: Seq<Seq<char>>) -> Seq<Seq<char>> {
    if is_status_start(w) {
        w.skip(2)
    } else {
        w.drop_first()
    }
}

/// What the text `s` parses to, or `None` when its start line has no verb.
pub open spec fn parse_model(s: Seq<char>) -> Option<FrameModel> {
    let ls = lines(s);
    let w = words(ls[0]);
    let rest = ls.drop_first();
    let e = end_pos(rest);
    if w.len() == 0 {
        None
    } else {
        Some(
            FrameModel {
                verb: start_verb(w),
                args: start_args(w),
                headers: lines_map(rest.take(e as int)),
                body: if e + 1 < rest.len() {
                    Some(join_lines(rest.skip(e + 1int)))
                } else {
                    None
                },
            },
        )
    }
}

/// The value of header `key` in a frame's meaning, if it has one.
pub open spec fn header_value(f: FrameModel, key: Seq<char>) -> Option<Seq<char>> {
    if f.headers.contains_key(key) {
        Some(f.headers[key])
    } else {
        None
    }
}

/// A verb that reads back as written in front of `args`: either a word (a number only when
/// no arguments follow), or a status line, a number and a word separated by one space.
pub open spec fn verb_wire_safe(verb: Seq<char>, args: Seq<Seq<char>>) -> bool {
    let c = char_pos(verb, ' ');
    (is_token(verb) && !(all_digits(verb) && args.len() > 0)) || (c < verb.len() && is_token(
        verb.take(c as int),
    ) && all_digits(verb.take(c as int)) && is_token(verb.skip(c + 1int)))
}

/// A word: not empty and free of whitespace.
pub open spec fn is_token(s: Seq<char>) -> bool {
    s.len() > 0 && no_space(s)
}

/// A header entry that survives the trip through the wire: the key holds no colon,
/// neither part holds a line break or has whitespace at its ends.
pub open spec fn header_wire_safe(h: (Seq<char>, Seq<char>)) -> bool {
    &&& char_pos(h.0, ':') == h.0.len()
    &&& no_crlf(h.0)
    &&& no_crlf(h.1)
    &&& is_trimmed(h.0)
    &&& is_trimmed(h.1)
}

impl Frame {
    /// The verb reads back as written, every argument is a word, and every header is
    /// wire-safe.
    pub open spec fn wire_safe(&self) -> bool {
        &&& verb_wire_safe(self.verb@, views(self.args@))
        &&& forall|i: int| 0 <= i < self.args@.len() ==> is_token(#[trigger] self.args@[i]@)
        &&& forall|i: int|
            0 <= i < self.headers@.len() ==> header_wire_safe(
                #[trigger] pair_views(self.headers@)[i],
            )
    }

    /// The mapping of the headers.
    pub open spec fn header_map(&self) -> Map<Seq<char>, Seq<char>> {
        map_of(pair_views(self.headers@))
    }
}


pub proof fn lemma_map_of_absent(hs: Seq<(Seq<char>, Seq<char>)>, k: Seq<char>)
    requires
        forall|j: int| 0 <= j < hs.len() ==> (#[trigger] hs[j]).0 != k,
    ensures
        !map_of(hs).contains_key(k),
    decreases hs.len(),
{
    if hs.len() > 0 {
        lemma_map_of_absent(hs.drop_last(), k);
    }
}

pub proof fn lemma_map_of_last(hs: Seq<(Seq<char>, Seq<char>)>, k: Seq<char>, i: int)
    requires
        0 <= i < hs.len(),
        hs[i].0 == k,
        forall|j: int| i < j < hs.len() ==> (#[trigger] hs[j]).0 != k,
    ensures
        map_of(hs).contains_key(k),
        map_of(hs)[k] == hs[i].1,
    decreases hs.len(),
{
    if i < hs.len() - 1 {
        lemma_map_of_last(hs.drop_last(), k, i);
    }
}

pub proof fn lemma_map_of_update(
    hs: Seq<(Seq<char>, Seq<char>)>,
    i: int,
    h: (Seq<char>, Seq<char>),
)
    requires
        0 <= i < hs.len(),
        hs[i].0 == h.0,
        forall|j: int| i < j < hs.len() ==> (#[trigger] hs[j]).0 != h.0,
    ensures
        map_of(hs.update(i, h)) == map_of(hs).insert(h.0, h.1),
    decreases hs.len(),
{
    let u = hs.update(i, h);
    if i == hs.len() - 1 {
        assert(u.drop_last() =~= hs.drop_last());
        assert(map_of(u) =~= map_of(hs).insert(h.0, h.1));
    } else {
        assert(u.drop_last() =~= hs.drop_last().update(i, h));
        lemma_map_of_update(hs.drop_last(), i, h);
        assert(map_of(u) =~= map_of(hs).insert(h.0, h.1));
    }
}

impl Frame {
    /// A frame with the given verb, no arguments, no headers and no body.
    pub fn new(verb: &str) -> (r: Frame)
        ensures
            r.verb@ == verb@,
            r.args@.len() == 0,
            r.headers@.len() == 0,
            r.body.is_none(),
            r@.headers == Map::<Seq<char>, Seq<char>>::empty(),
    {
        Frame { verb: verb.to_owned(), args: Vec::new(), headers: Vec::new(), body: None }
    }

    /// Set or replace the header `key`.
    pub fn set_header(&mut self, key: &str, value: &str)
        ensures
            final(self).header_map() == old(self).header_map().insert(key@, value@),
            final(self).verb == old(self).verb,
            final(self).args == old(self).args,
            final(self).body == old(self).body,
            old(self).headers@.len() <= final(self).headers@.len(),
            keys_distinct(pair_views(old(self).headers@)) ==> keys_distinct(
                pair_views(final(self).headers@),
            ),
            !old(self).header_map().contains_key(key@) ==> pair_views(final(self).headers@)
                == pair_views(old(self).headers@).push((key@, value@)),
            forall|i: int|
                0 <= i < final(self).headers@.len() ==> #[trigger] pair_views(
                    final(self).headers@,
                )[i] == (key@, value@) || (i < old(self).headers@.len() && pair_views(
                    final(self).headers@,
                )[i] == pair_views(old(self).headers@)[i]),
    {
        let k = key.to_owned();
        let mut i = self.headers.len();
        while i > 0 && !(self.headers[i - 1].0 == k)
            invariant
                i <= self.headers@.len(),
                k@ == key@,
                forall|j: int|
                    i <= j < self.headers@.len() ==> (#[trigger] pair_views(self.headers@)[j]).0
                        != key@,
            decreases i,
        {
            i = i - 1;
        }
        let ghost hs = pair_views(self.headers@);
        let entry = (k, value.to_owned());
        if i > 0 {
            proof {
                lemma_map_of_last(hs, key@, i - 1);
                lemma_map_of_update(hs, i - 1, (key@, value@));
                assert(pair_views(self.headers@.update(i - 1, entry)) =~= hs.update(
                    i - 1,
                    (key@, value@),
                ));
            }
            self.headers.set(i - 1, entry);
            proof {
                let nv = pair_views(self.headers@);
                if keys_distinct(hs) {
                    assert forall|a: int, b: int| 0 <= a < b < nv.len() implies (
                    #[trigger] nv[a]).0 != (#[trigger] nv[b]).0 by {
                        assert(nv[a].0 == hs[a].0);
                        assert(nv[b].0 == hs[b].0);
                    }
                }
            }
        } else {
            proof {
                lemma_map_of_absent(hs, key@);
                assert(pair_views(self.headers@.push(entry)).drop_last() =~= hs);
                assert(pair_views(self.headers@.push(entry)) =~= hs.push((key@, value@)));
            }
            self.headers.push(entry);
            proof {
                let nv = pair_views(self.headers@);
                if keys_distinct(hs) {
                    assert forall|a: int, b: int| 0 <= a < b < nv.len() implies (
                    #[trigger] nv[a]).0 != (#[trigger] nv[b]).0 by {
                        assert(nv[a] == hs[a]);
                        if b < hs.len() {
                            assert(nv[b] == hs[b]);
                        }
                    }
                }
            }
        }
    }

    /// The value of header `key`, if the frame has it.
    pub fn header(&self, key: &str) -> (r: Option<&String>)
        ensures
            match r {
                Some(v) => self.header_map().contains_key(key@) && v@ == self.header_map()[key@],
                None => !self.header_map().contains_key(key@),
            },
    {
        let k = key.to_owned();
        let mut i = self.headers.len();
        while i > 0 && !(self.headers[i - 1].0 == k)
            invariant
                i <= self.headers@.len(),
                k@ == key@,
                forall|j: int|
                    i <= j < self.headers@.len() ==> (#[trigger] pair_views(self.headers@)[j]).0
                        != key@,
            decreases i,
        {
            i = i - 1;
        }
        proof {
            let hs = pair_views(self.headers@);
            if i > 0 {
                lemma_map_of_last(hs, key@, i - 1);
            } else {
                lemma_map_of_absent(hs, key@);
            }
        }
        if i > 0 {
            Some(&self.headers[i - 1].1)
        } else {
            None
        }
    }
}


pub proof fn lemma_lines_len(s: Seq<char>)
    ensures
        lines(s).len() >= 1,
        lines(s)[0] == s.take(line_len(s) as int),
    decreases s.len(),
{
    lemma_line_len(s);
    if line_len(s) >= s.len() {
        assert(s.take(line_len(s) as int) =~= s);
    }
}

/// Joining the lines of `s` gives `s` back.
pub proof fn lemma_join_lines(s: Seq<char>)
    ensures
        join_lines(lines(s)) == s,
    decreases s.len(),
{
    lemma_line_len(s);
    let n = line_len(s);
    if n < s.len() {
        let t = s.skip(n + 2int);
        lemma_join_lines(t);
        lemma_lines_len(t);
        let ls = lines(s);
        assert(ls.drop_first() =~= lines(t));
        assert(s =~= s.take(n as int) + crlf() + t);
    }
}

/// The lines of `s` from position `p` on: the line up to `e`, then the lines after the break.
pub proof fn lemma_lines_step(s: Seq<char>, p: int, e: int)
    requires
        0 <= p <= e <= s.len(),
        e == p + line_len(s.skip(p)),
    ensures
        e < s.len() ==> lines(s.skip(p)) == seq![s.subrange(p, e)] + lines(s.skip(e + 2)),
        e == s.len() ==> lines(s.skip(p)) == seq![s.subrange(p, e)],
{
    let t = s.skip(p);
    lemma_line_len(t);
    if e < s.len() {
        assert(t.take(e - p) =~= s.subrange(p, e));
        assert(t.skip(e - p + 2) =~= s.skip(e + 2));
    } else {
        assert(t =~= s.subrange(p, e));
    }
}

pub proof fn lemma_end_pos_exact(ls: Seq<Seq<char>>, n: int)
    requires
        0 <= n <= ls.len(),
        forall|j: int| 0 <= j < n ==> #[trigger] ls[j] != end_line(),
        n == ls.len() || ls[n] == end_line(),
    ensures
        end_pos(ls) == n,
    decreases n,
{
    if n > 0 {
        let t = ls.drop_first();
        assert forall|j: int| 0 <= j < n - 1 implies #[trigger] t[j] != end_line() by {
            assert(t[j] == ls[j + 1]);
        }
        lemma_end_pos_exact(t, n - 1);
    }
}

/// Whether every character of `s` is a decimal digit.
fn is_number(s: &str) -> (r: bool)
    ensures
        r == all_digits(s@),
{
    let v = chars_of(s);
    let mut i: usize = 0;
    while i < v.len()
        invariant
            i <= v@.len(),
            v@ == s@,
            forall|k: int| 0 <= k < i ==> crate::num::is_digit(#[trigger] v@[k]),
        decreases v@.len() - i,
    {
        if !('0' <= v[i] && v[i] <= '9') {
            return false;
        }
        i = i + 1;
    }
    true
}

/// Whether the characters of `v` from `p` up to `e` spell `End:`.
fn is_end_line(v: &Vec<char>, p: usize, e: usize) -> (r: bool)
    requires
        p <= e <= v@.len(),
    ensures
        r == (v@.subrange(p as int, e as int) == end_line()),
{
    let r = e - p == 4 && v[p] == 'E' && v[p + 1] == 'n' && v[p + 2] == 'd' && v[p + 3] == ':';
    proof {
        let t = v@.subrange(p as int, e as int);
        let el = end_line();
        assert(el.len() == 4 && el[0] == 'E' && el[1] == 'n' && el[2] == 'd' && el[3] == ':');
        if r {
            assert(t =~= el);
        } else if t == el {
            assert(t[0] == el[0] && t[1] == el[1] && t[2] == el[2] && t[3] == el[3]);
        }
    }
    r
}

impl Frame {
    /// The frame's wire text: start line, header lines, `End:`, then the body.
    pub fn to_string(&self) -> (r: String)
        ensures
            r@ == frame_text(*self),
    {
        proof {
            reveal_strlit(" ");
            reveal_strlit("\r\n");
            reveal_strlit(": ");
            reveal_strlit("End:\r\n");
            assert(" "@ =~= seq![' ']);
            assert("\r\n"@ =~= crlf());
            assert(": "@ =~= seq![':', ' ']);
            assert("End:\r\n"@ =~= end_line() + crlf());
        }
        let ghost av = views(self.args@);
        let ghost hv = pair_views(self.headers@);
        let mut out = String::new();
        out.append(self.verb.as_str());
        let mut i: usize = 0;
        proof {
            assert(av.skip(0) =~= av);
        }
        while i < self.args.len()
            invariant
                i <= self.args@.len(),
                av == views(self.args@),
                " "@ == seq![' '],
                out@ + args_text(av.skip(i as int)) == self.verb@ + args_text(av),
            decreases self.args@.len() - i,
        {
            proof {
                assert(av.skip(i as int).drop_first() =~= av.skip(i + 1));
                assert(out@ + args_text(av.skip(i as int)) =~= out@ + seq![' '] + av[i as int]
                    + args_text(av.skip(i + 1)));
            }
            let ghost before = out@;
            out.append(" ");
            out.append(self.args[i].as_str());
            proof {
                assert(out@ + args_text(av.skip(i + 1)) =~= before + seq![' '] + av[i as int]
                    + args_text(av.skip(i + 1)));
            }
            i = i + 1;
        }
        proof {
            assert(av.skip(i as int) =~= Seq::<Seq<char>>::empty());
            assert(out@ =~= self.verb@ + args_text(av));
            assert(hv.skip(0) =~= hv);
        }
        out.append("\r\n");
        let ghost pre = out@;
        let mut j: usize = 0;
        while j < self.headers.len()
            invariant
                j <= self.headers@.len(),
                hv == pair_views(self.headers@),
                ": "@ == seq![':', ' '],
                "\r\n"@ == crlf(),
                out@ + headers_text(hv.skip(j as int)) == pre + headers_text(hv),
            decreases self.headers@.len() - j,
        {
            proof {
                assert(hv.skip(j as int).drop_first() =~= hv.skip(j + 1));
                assert(out@ + headers_text(hv.skip(j as int)) =~= out@ + self.headers@[j as int].0@
                    + seq![':', ' '] + self.headers@[j as int].1@ + crlf() + headers_text(
                    hv.skip(j + 1),
                ));
            }
            let ghost before = out@;
            out.append(self.headers[j].0.as_str());
            out.append(": ");
            out.append(self.headers[j].1.as_str());
            out.append("\r\n");
            proof {
                assert(out@ + headers_text(hv.skip(j + 1)) =~= before + self.headers@[j as int].0@
                    + seq![':', ' '] + self.headers@[j as int].1@ + crlf() + headers_text(
                    hv.skip(j + 1),
                ));
            }
            j = j + 1;
        }
        proof {
            assert(hv.skip(j as int) =~= Seq::<(Seq<char>, Seq<char>)>::empty());
        }
        out.append("End:\r\n");
        match &self.body {
            Some(b) => {
                out.append(b.as_str());
            },
            None => {},
        }
        proof {
            assert(out@ =~= frame_text(*self));
        }
        out
    }

    /// Read a frame from its wire text.
    pub fn parse(raw: &str) -> (r: Result<Frame, RabbitError>)
        ensures
            match r {
                Ok(f) => parse_model(raw@) == Some(f@) && keys_distinct(pair_views(f.headers@)),
                Err(e) => parse_model(raw@).is_none() && e == RabbitError::MalformedFrame,
            },
    {
        let v = chars_of(raw);
        let n = v.len();
        let e0 = line_end(&v, 0);
        let toks = words_in(raw, &v, 0, e0);
        let ghost s = v@;
        let ghost ls = lines(s);
        proof {
            assert(s.skip(0) =~= s);
            lemma_lines_step(s, 0, e0 as int);
            assert(ls[0] == s.subrange(0, e0 as int));
        }
        if toks.len() == 0 {
            return Err(RabbitError::MalformedFrame);
        }
        let ghost w = words(ls[0]);
        let status = toks.len() >= 2 && is_number(toks[0].as_str());
        let first: usize = if status {
            2
        } else {
            1
        };
        let mut frame = if status {
            let mut verb = toks[0].clone();
            verb.append(" ");
            verb.append(toks[1].as_str());
            proof {
                reveal_strlit(" ");
                assert(" "@ =~= seq![' ']);
            }
            Frame { verb, args: Vec::new(), headers: Vec::new(), body: None }
        } else {
            Frame::new(toks[0].as_str())
        };
        proof {
            assert(views(toks@) == w);
            assert(views(toks@).len() == toks@.len());
            assert(views(toks@)[0] == toks@[0]@);
            if toks@.len() >= 2 {
                assert(views(toks@)[1] == toks@[1]@);
            }
            assert(frame.verb@ == start_verb(w));
            assert(views(frame.args@) =~= views(toks@).subrange(first as int, first as int));
        }
        let mut i: usize = first;
        while i < toks.len()
            invariant
                first <= i <= toks@.len(),
                frame.verb@ == start_verb(w),
                w == views(toks@),
                views(frame.args@) == views(toks@).subrange(first as int, i as int),
                frame.headers@.len() == 0,
                frame.body.is_none(),
            decreases toks@.len() - i,
        {
            let a = toks[i].clone();
            let ghost old_args = frame.args@;
            frame.args.push(a);
            proof {
                assert(views(frame.args@) =~= views(old_args).push(a@));
                assert(views(frame.args@) =~= views(toks@).subrange(first as int, i + 1));
            }
            i = i + 1;
        }
        let ghost rest = ls.drop_first();
        proof {
            if toks@.len() < first {
                assert(false);
            }
            assert(views(toks@).subrange(first as int, toks@.len() as int) =~= start_args(w));
            assert(frame.header_map() =~= Map::<Seq<char>, Seq<char>>::empty());
        }
        if e0 == n {
            proof {
                assert(rest.len() == 0);
                assert(rest.take(0) =~= Seq::<Seq<char>>::empty());
            }
            return Ok(frame);
        }
        let mut p = e0 + 2;
        let ghost mut k: int = 0;
        proof {
            assert(rest.skip(0) =~= rest);
            assert(rest.take(0) =~= Seq::<Seq<char>>::empty());
        }
        loop
            invariant
                p <= n,
                n == v@.len(),
                s == v@,
                s == raw@,
                ls == lines(s),
                rest == ls.drop_first(),
                w == words(ls[0]),
                w.len() > 0,
                0 <= k <= rest.len(),
                lines(s.skip(p as int)) == rest.skip(k),
                forall|j: int| 0 <= j < k ==> #[trigger] rest[j] != end_line(),
                frame.header_map() == lines_map(rest.take(k)),
                frame.verb@ == start_verb(w),
                views(frame.args@) == start_args(w),
                keys_distinct(pair_views(frame.headers@)),
                frame.body.is_none(),
            decreases n - p,
        {
            let e = line_end(&v, p);
            proof {
                lemma_lines_step(s, p as int, e as int);
                assert(rest.skip(k).len() == rest.len() - k);
                assert(rest.skip(k)[0] == rest[k]);
                assert(rest[k] == s.subrange(p as int, e as int));
                if e < n {
                    assert(rest.skip(k + 1) =~= rest.skip(k).drop_first());
                    lemma_lines_len(s.skip(e + 2));
                } else {
                    assert(rest.len() == k + 1);
                }
            }
            if is_end_line(&v, p, e) {
                proof {
                    lemma_end_pos_exact(rest, k);
                }
                if e < n {
                    let b = slice_string(raw, e + 2, n);
                    proof {
                        lemma_join_lines(s.skip(e + 2));
                        assert(s.skip(e + 2) =~= s.subrange(e + 2, n as int));
                        assert(rest.skip(k + 1) == lines(s.skip(e + 2)));
                        assert(k + 1 < rest.len());
                        assert(join_lines(rest.skip(k + 1)) == b@);
                    }
                    frame.body = Some(b);
                }
                return Ok(frame);
            }
            let ghost line = s.subrange(p as int, e as int);
            let c = find_char(&v, p, e, ':');
            proof {
                assert(rest.take(k + 1).drop_last() =~= rest.take(k));
                assert(rest.take(k + 1).last() == line);
            }
            if c < e {
                let (ka, kb) = trim_range(&v, p, c);
                let (va, vb) = trim_range(&v, c + 1, e);
                let key = slice_string(raw, ka, kb);
                let val = slice_string(raw, va, vb);
                proof {
                    assert(line.take(c - p) =~= s.subrange(p as int, c as int));
                    assert(line.skip(c - p + 1) =~= s.subrange(c + 1, e as int));
                }
                frame.set_header(key.as_str(), val.as_str());
            }
            if e == n {
                proof {
                    lemma_end_pos_exact(rest, k + 1);
                    assert(rest.take(k + 1) =~= rest);
                }
                return Ok(frame);
            }
            p = e + 2;
            proof {
                k = k + 1;
            }
        }
    }
}


/// A trimmed text is its own trimming.
pub proof fn lemma_trimmed(s: Seq<char>)
    requires
        is_trimmed(s),
    ensures
        trim(s) == s,
{
    lemma_trim_start_exact(s, 0);
    assert(s.skip(0) =~= s);
    if s.len() > 0 {
        assert(s[s.len() - 1] == s.last());
    }
    lemma_trim_end_exact(s, s.len() as int);
    assert(s.take(s.len() as int) =~= s);
}

/// A text without line breaks, followed by one, is the first line.
pub proof fn lemma_lines_cons(a: Seq<char>, b: Seq<char>)
    requires
        no_crlf(a),
    ensures
        lines(a + crlf() + b) == seq![a] + lines(b),
{
    let s = a + crlf() + b;
    assert forall|k: int| 0 <= k < a.len() implies !#[trigger] crlf_at(s, k) by {
        if k + 1 < a.len() {
            assert(crlf_at(s, k) == crlf_at(a, k));
        } else {
            assert(s[k + 1] == '\r');
        }
    }
    assert(crlf_at(s, a.len() as int));
    lemma_line_len_exact(s, a.len() as int);
    assert(s.take(a.len() as int) =~= a);
    assert(s.skip(a.len() + 2int) =~= b);
}

pub proof fn lemma_header_line_no_crlf(h: (Seq<char>, Seq<char>))
    requires
        header_wire_safe(h),
    ensures
        no_crlf(header_line(h)),
{
    let l = header_line(h);
    let kl = h.0.len() as int;
    assert forall|i: int| !#[trigger] crlf_at(l, i) by {
        if crlf_at(l, i) {
            if i + 1 < kl {
                assert(crlf_at(h.0, i));
            } else if i + 1 == kl {
                assert(l[i + 1] == ':');
            } else if i == kl {
                assert(l[i] == ':');
            } else if i == kl + 1 {
                assert(l[i] == ' ');
            } else {
                assert(l[i] == h.1[i - kl - 2]);
                assert(l[i + 1] == h.1[i - kl - 1]);
                assert(crlf_at(h.1, i - kl - 2));
            }
        }
    }
}

pub proof fn lemma_header_line_not_end(h: (Seq<char>, Seq<char>))
    ensures
        header_line(h) != end_line(),
{
    let l = header_line(h);
    let kl = h.0.len() as int;
    assert(l[kl + 1] == ' ');
    if l == end_line() {
        let el = end_line();
        assert(el.len() == 4 && el[0] == 'E' && el[1] == 'n' && el[2] == 'd' && el[3] == ':');
        assert(l[kl + 1] == el[kl + 1]);
    }
}

/// A wire-safe header line reads back as the header it was written from.
pub proof fn lemma_parse_header_line(h: (Seq<char>, Seq<char>))
    requires
        header_wire_safe(h),
    ensures
        parse_header(header_line(h)) == Some(h),
{
    let l = header_line(h);
    let kl = h.0.len() as int;
    assert forall|k: int| 0 <= k < kl implies #[trigger] l[k] != ':' by {
        assert(l[k] == h.0[k]);
        if h.0[k] == ':' {
            char_pos_bound(h.0, ':', k);
        }
    }
    lemma_char_pos_exact(l, ':', kl);
    assert(l.take(kl) =~= h.0);
    let after = l.skip(kl + 1);
    assert(after =~= seq![' '] + h.1);
    assert(after.drop_first() =~= h.1);
    assert(trim_start(after) == trim_start(h.1));
    lemma_trimmed(h.0);
    lemma_trimmed(h.1);
}

/// Nothing in `s` before position `k` is `c` when `c` first occurs at the end.
pub proof fn char_pos_bound(s: Seq<char>, c: char, k: int)
    requires
        0 <= k < s.len(),
        s[k] == c,
    ensures
        char_pos(s, c) <= k,
    decreases k,
{
    if k > 0 && s[0] != c {
        char_pos_bound(s.drop_first(), c, k - 1);
    }
}

pub proof fn lemma_lines_headers(hs: Seq<(Seq<char>, Seq<char>)>, r: Seq<char>)
    requires
        forall|i: int| 0 <= i < hs.len() ==> header_wire_safe(#[trigger] hs[i]),
    ensures
        lines(headers_text(hs) + r) == hs.map_values(|h: (Seq<char>, Seq<char>)| header_line(h))
            + lines(r),
    decreases hs.len(),
{
    let hl = hs.map_values(|h: (Seq<char>, Seq<char>)| header_line(h));
    if hs.len() == 0 {
        assert(headers_text(hs) + r =~= r);
        assert(hl + lines(r) =~= lines(r));
    } else {
        let t = hs.drop_first();
        assert(forall|i: int| 0 <= i < t.len() ==> t[i] == hs[i + 1]);
        lemma_lines_headers(t, r);
        lemma_header_line_no_crlf(hs[0]);
        assert(headers_text(hs) + r =~= header_line(hs[0]) + crlf() + (headers_text(t) + r));
        lemma_lines_cons(header_line(hs[0]), headers_text(t) + r);
        let tl = t.map_values(|h: (Seq<char>, Seq<char>)| header_line(h));
        assert(hl =~= seq![header_line(hs[0])] + tl);
    }
}

pub proof fn lemma_lines_map_headers(hs: Seq<(Seq<char>, Seq<char>)>)
    requires
        forall|i: int| 0 <= i < hs.len() ==> header_wire_safe(#[trigger] hs[i]),
    ensures
        lines_map(hs.map_values(|h: (Seq<char>, Seq<char>)| header_line(h))) == map_of(hs),
    decreases hs.len(),
{
    let hl = hs.map_values(|h: (Seq<char>, Seq<char>)| header_line(h));
    if hs.len() > 0 {
        let d = hs.drop_last();
        lemma_lines_map_headers(d);
        assert(hl.drop_last() =~= d.map_values(|h: (Seq<char>, Seq<char>)| header_line(h)));
        lemma_parse_header_line(hs.last());
    }
}

pub proof fn lemma_words_token(t: Seq<char>, r: Seq<char>)
    requires
        is_token(t),
        r.len() == 0 || is_space(r[0]),
    ensures
        words(t + r) == seq![t] + words(r),
{
    let s = t + r;
    assert forall|k: int| 0 <= k < t.len() implies !is_space(#[trigger] s[k]) by {
        assert(s[k] == t[k]);
    }
    lemma_token_len_exact(s, t.len() as int);
    assert(s.take(t.len() as int) =~= t);
    assert(s.skip(t.len() as int) =~= r);
}

pub proof fn lemma_words_args(args: Seq<Seq<char>>)
    requires
        forall|i: int| 0 <= i < args.len() ==> is_token(#[trigger] args[i]),
    ensures
        words(args_text(args)) == args,
    decreases args.len(),
{
    if args.len() > 0 {
        let t = args.drop_first();
        assert(forall|i: int| 0 <= i < t.len() ==> t[i] == args[i + 1]);
        lemma_words_args(t);
        let rt = args_text(t);
        let s = args_text(args);
        assert(s.drop_first() =~= args[0] + rt);
        if rt.len() > 0 {
            assert(rt[0] == ' ');
        }
        lemma_words_token(args[0], rt);
        assert(seq![args[0]] + t =~= args);
    }
}

pub proof fn lemma_args_text_no_cr(args: Seq<Seq<char>>)
    requires
        forall|i: int| 0 <= i < args.len() ==> is_token(#[trigger] args[i]),
    ensures
        forall|i: int| 0 <= i < args_text(args).len() ==> #[trigger] args_text(args)[i] != '\r',
    decreases args.len(),
{
    if args.len() > 0 {
        let t = args.drop_first();
        assert(forall|i: int| 0 <= i < t.len() ==> t[i] == args[i + 1]);
        lemma_args_text_no_cr(t);
        let a = args[0];
        let s = args_text(args);
        assert forall|i: int| 0 <= i < s.len() implies #[trigger] s[i] != '\r' by {
            if 1 <= i <= a.len() {
                assert(s[i] == a[i - 1]);
                assert(!is_space(a[i - 1]));
            } else if i > a.len() {
                assert(s[i] == args_text(t)[i - 1 - a.len()]);
            }
        }
    }
}

/// Missing and empty bodies read the same on the wire.
pub open spec fn with_body(m: FrameModel) -> FrameModel {
    FrameModel {
        verb: m.verb,
        args: m.args,
        headers: m.headers,
        body: Some(
            match m.body {
                Some(b) => b,
                None => Seq::<char>::empty(),
            },
        ),
    }
}

/// Parsing the wire text of a wire-safe frame gives the frame back, up to the order of its
/// headers and with a missing body read as an empty one.
pub proof fn lemma_frame_round_trip(f: Frame)
    requires
        f.wire_safe(),
    ensures
        parse_model(frame_text(f)) == Some(with_body(f@)),
{
    let av = views(f.args@);
    let hv = pair_views(f.headers@);
    let b = match f.body {
        Some(x) => x@,
        None => Seq::<char>::empty(),
    };
    let start = f.verb@ + args_text(av);
    assert forall|i: int| 0 <= i < av.len() implies is_token(#[trigger] av[i]) by {
        assert(is_token(f.args@[i]@));
    }
    assert forall|i: int| 0 <= i < hv.len() implies header_wire_safe(#[trigger] hv[i]) by {}
    lemma_args_text_no_cr(av);
    let vb = f.verb@;
    let c = char_pos(vb, ' ');
    lemma_char_pos_bound(vb, ' ');
    let plain = is_token(vb) && !(all_digits(vb) && av.len() > 0);
    assert forall|k: int| 0 <= k < vb.len() implies #[trigger] vb[k] != '\r' by {
        if plain {
            assert(!is_space(vb[k]));
        } else if k < c {
            assert(vb.take(c as int)[k] == vb[k]);
            assert(!is_space(vb.take(c as int)[k]));
        } else if k > c {
            assert(vb.skip(c + 1int)[k - c - 1] == vb[k]);
            assert(!is_space(vb.skip(c + 1int)[k - c - 1]));
        }
    }
    assert forall|k: int| !#[trigger] crlf_at(start, k) by {
        if crlf_at(start, k) {
            if k < vb.len() {
                assert(start[k] == vb[k]);
            } else {
                assert(start[k] == args_text(av)[k - vb.len()]);
            }
        }
    }
    let tail = end_line() + crlf() + b;
    assert(frame_text(f) =~= start + crlf() + (headers_text(hv) + tail));
    lemma_lines_cons(start, headers_text(hv) + tail);
    lemma_lines_headers(hv, tail);
    assert forall|k: int| !#[trigger] crlf_at(end_line(), k) by {}
    lemma_lines_cons(end_line(), b);
    let hl = hv.map_values(|h: (Seq<char>, Seq<char>)| header_line(h));
    let ls = lines(frame_text(f));
    let rest = ls.drop_first();
    assert(ls =~= seq![start] + (hl + (seq![end_line()] + lines(b))));
    assert(rest =~= hl + seq![end_line()] + lines(b));
    assert forall|j: int| 0 <= j < hl.len() implies #[trigger] rest[j] != end_line() by {
        lemma_header_line_not_end(hv[j]);
    }
    lemma_end_pos_exact(rest, hl.len() as int);
    assert(rest.take(hl.len() as int) =~= hl);
    lemma_lines_map_headers(hv);
    assert(rest.skip(hl.len() + 1int) =~= lines(b));
    lemma_lines_len(b);
    lemma_join_lines(b);
    if av.len() > 0 {
        assert(args_text(av)[0] == ' ');
    }
    assert(ls[0] == start);
    let w = words(start);
    if plain {
        lemma_words_token(vb, args_text(av));
        lemma_words_args(av);
        assert(w =~= seq![vb] + av);
        assert(w[0] == vb);
        assert(w.drop_first() =~= av);
        assert(!is_status_start(w));
    } else {
        let code = vb.take(c as int);
        let word = vb.skip(c + 1int);
        assert(vb =~= code + seq![' '] + word);
        let av2 = seq![word] + av;
        assert(av2.drop_first() =~= av);
        assert(args_text(av2) =~= seq![' '] + word + args_text(av));
        assert(start =~= code + args_text(av2));
        assert forall|i: int| 0 <= i < av2.len() implies is_token(#[trigger] av2[i]) by {
            if i > 0 {
                assert(av2[i] == av[i - 1]);
            }
        }
        assert(args_text(av2)[0] == ' ');
        lemma_words_token(code, args_text(av2));
        lemma_words_args(av2);
        assert(w =~= seq![code] + av2);
        assert(w[0] == code && w[1] == word);
        assert(is_status_start(w));
        assert(start_verb(w) =~= vb);
        assert(w.skip(2) =~= av);
    }
    let e = end_pos(rest);
    assert(e == hl.len());
    assert(lines_map(rest.take(e as int)) == map_of(hv));
    assert(e + 1 < rest.len());
    assert(join_lines(rest.skip(e + 1int)) == b);
    assert(f@.headers == map_of(hv));
}

} // verus!
