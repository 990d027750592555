//! Command tokenizer: splits a line into tokens honouring `"` quoting and
//! `\` escaping, and joins tokens back into a line.
use vstd::prelude::*;
use crate::error::{QuipError, QuipResult};
use crate::text::{chars_of, is_white_space, lemma_trim_noop, push_char, trim, trimmed};

verus! {

/// The state of the tokenizer after a prefix of the line.
pub struct Scan {
    pub quote: bool,
    pub escape: bool,
    pub cur: Seq<char>,
    pub toks: Seq<Seq<char>>,
}

pub open spec fn scan_start() -> Scan {
    Scan { quote: false, escape: false, cur: Seq::empty(), toks: Seq::empty() }
}

/// One character of the tokenizer.
pub open spec fn scan_step(st: Scan, ch: char) -> Scan {
    if ch == '\\' && !st.escape {
        Scan { escape: true, ..st }
    } else if ch == '"' && !st.escape {
        Scan { quote: !st.quote, ..st }
    } else if ch == ' ' && !st.quote && !st.escape {
        if st.cur.len() > 0 {
            Scan { cur: Seq::empty(), toks: st.toks.push(st.cur), ..st }
        } else {
            st
        }
    } else {
        Scan { escape: false, cur: st.cur.push(ch), ..st }
    }
}

/// The tokenizer run over `s`, starting in `st`.
pub open spec fn scan(st: Scan, s: Seq<char>) -> Scan
    decreases s.len(),
{
    if s.len() == 0 {
        st
    } else {
        scan_step(scan(st, s.drop_last()), s.last())
    }
}

/// The tokens of a line that has already been trimmed, or `None` when the
/// line ends inside a quote or right after a `\`.
pub open spec fn tokens_of(line: Seq<char>) -> Option<Seq<Seq<char>>> {
    let st = scan(scan_start(), line);
    if st.quote || st.escape {
        None
    } else if st.cur.len() > 0 {
        Some(st.toks.push(st.cur))
    } else {
        Some(st.toks)
    }
}

/// What `tokenize` returns on `input`.
pub open spec fn tokenize_spec(input: Seq<char>) -> Option<Seq<Seq<char>>> {
    tokens_of(trimmed(input))
}

/// The escaped form of one character.
pub open spec fn escape_char(c: char) -> Seq<char> {
    if c == '"' {
        seq!['\\', '"']
    } else if c == '\\' {
        seq!['\\', '\\']
    } else {
        seq![c]
    }
}

/// Every `"` and `\` of `s` preceded by a `\`.
pub open spec fn escape_spec(s: Seq<char>) -> Seq<char>
    decreases s.len(),
{
    if s.len() == 0 {
        Seq::empty()
    } else {
        escape_spec(s.drop_last()) + escape_char(s.last())
    }
}

/// One token as it is written on the wire: escaped, and quoted when it holds
/// a space.
pub open spec fn encode_token(t: Seq<char>) -> Seq<char> {
    if t.contains(' ') {
        seq!['"'] + escape_spec(t) + seq!['"']
    } else {
        escape_spec(t)
    }
}

/// The encoded tokens joined by single spaces.
pub open spec fn join_spec(v: Seq<Seq<char>>) -> Seq<char>
    decreases v.len(),
{
    if v.len() == 0 {
        Seq::empty()
    } else if v.len() == 1 {
        encode_token(v[0])
    } else {
        join_spec(v.drop_last()) + seq![' '] + encode_token(v.last())
    }
}

/// The views of a vector of strings.
pub open spec fn strs_view(v: Seq<&str>) -> Seq<Seq<char>> {
    v.map_values(|s: &str| s@)
}

/// The views of a vector of owned strings.
pub open spec fn strings_view(v: Seq<String>) -> Seq<Seq<char>> {
    v.map_values(|s: String| s@)
}

/// Running the tokenizer over `a + b` runs it over `a`, then over `b`.
proof fn lemma_scan_concat(st: Scan, a: Seq<char>, b: Seq<char>)
    ensures
        scan(st, a + b) == scan(scan(st, a), b),
    decreases b.len(),
{
    if b.len() == 0 {
        assert(a + b =~= a);
    } else {
        assert((a + b).drop_last() =~= a + b.drop_last());
        assert((a + b).last() == b.last());
        lemma_scan_concat(st, a, b.drop_last());
    }
}

proof fn lemma_scan_two(st: Scan, x: char, y: char)
    ensures
        scan(st, seq![x]) == scan_step(st, x),
        scan(st, seq![x, y]) == scan_step(scan_step(st, x), y),
{
    let one = seq![x];
    let two = seq![x, y];
    assert(one.drop_last() =~= Seq::<char>::empty());
    assert(two.drop_last() =~= one);
    assert(scan(st, one.drop_last()) == st);
    assert(scan(st, one) == scan_step(scan(st, one.drop_last()), one.last()));
    assert(scan(st, two) == scan_step(scan(st, two.drop_last()), two.last()));
}

/// An escaped text adds exactly its unescaped characters to the current token,
/// inside a quote or, when it holds no space, outside one.
proof fn lemma_scan_escaped(q: bool, c: Seq<char>, toks: Seq<Seq<char>>, t: Seq<char>)
    requires
        !q ==> !t.contains(' '),
    ensures
        scan(Scan { quote: q, escape: false, cur: c, toks }, escape_spec(t)) == (Scan {
            quote: q,
            escape: false,
            cur: c + t,
            toks,
        }),
    decreases t.len(),
{
    let st = Scan { quote: q, escape: false, cur: c, toks };
    if t.len() == 0 {
        assert(c + t =~= c);
    } else {
        let t0 = t.drop_last();
        let x = t.last();
        if !q {
            assert forall|j: int| 0 <= j < t0.len() implies t0[j] != ' ' by {
                assert(t0[j] == t[j]);
            }
            assert(t[t.len() - 1] == x);
        }
        lemma_scan_escaped(q, c, toks, t0);
        lemma_scan_concat(st, escape_spec(t0), escape_char(x));
        let mid = Scan { quote: q, escape: false, cur: c + t0, toks };
        lemma_scan_two(mid, '\\', x);
        lemma_scan_two(mid, x, x);
        assert((c + t0).push(x) =~= c + t);
    }
}

/// A non-empty token, encoded, becomes the current token.
proof fn lemma_scan_encoded(toks: Seq<Seq<char>>, t: Seq<char>)
    requires
        t.len() > 0,
    ensures
        scan(Scan { quote: false, escape: false, cur: Seq::empty(), toks }, encode_token(t)) == (
        Scan { quote: false, escape: false, cur: t, toks }),
{
    let st = Scan { quote: false, escape: false, cur: Seq::empty(), toks };
    if t.contains(' ') {
        let open = Scan { quote: true, ..st };
        lemma_scan_two(st, '"', '"');
        lemma_scan_concat(st, seq!['"'], escape_spec(t));
        lemma_scan_escaped(true, Seq::empty(), toks, t);
        assert(Seq::<char>::empty() + t =~= t);
        lemma_scan_concat(st, seq!['"'] + escape_spec(t), seq!['"']);
        lemma_scan_two(Scan { quote: true, escape: false, cur: t, toks }, '"', '"');
    } else {
        lemma_scan_escaped(false, Seq::empty(), toks, t);
        assert(Seq::<char>::empty() + t =~= t);
    }
}

/// After a joined line of non-empty tokens, all but the last token are done
/// and the last one is current.
proof fn lemma_scan_joined(v: Seq<Seq<char>>)
    requires
        v.len() > 0,
        forall|i: int| 0 <= i < v.len() ==> v[i].len() > 0,
    ensures
        scan(scan_start(), join_spec(v)) == (Scan {
            quote: false,
            escape: false,
            cur: v.last(),
            toks: v.drop_last(),
        }),
    decreases v.len(),
{
    if v.len() == 1 {
        lemma_scan_encoded(Seq::empty(), v[0]);
        assert(v.drop_last() =~= Seq::<Seq<char>>::empty());
    } else {
        let v0 = v.drop_last();
        assert(v0.last() == v[v.len() - 2]);
        lemma_scan_joined(v0);
        lemma_scan_concat(scan_start(), join_spec(v0), seq![' ']);
        lemma_scan_concat(scan_start(), join_spec(v0) + seq![' '], encode_token(v.last()));
        let mid = Scan { quote: false, escape: false, cur: v0.last(), toks: v0.drop_last() };
        lemma_scan_two(mid, ' ', ' ');
        assert(v0.drop_last().push(v0.last()) =~= v0);
        lemma_scan_encoded(v0, v.last());
    }
}

/// The escaped text ends with the last character and starts with the escape
/// of the first.
proof fn lemma_escape_edges(t: Seq<char>)
    requires
        t.len() > 0,
    ensures
        escape_spec(t).len() > 0,
        escape_spec(t).last() == t.last(),
        escape_spec(t)[0] == escape_char(t[0])[0],
    decreases t.len(),
{
    let t0 = t.drop_last();
    if t.len() == 1 {
        assert(escape_spec(t0) =~= Seq::<char>::empty());
        assert(escape_spec(t) =~= escape_char(t[0]));
    } else {
        lemma_escape_edges(t0);
        assert(t0[0] == t[0]);
    }
}

/// The joined line starts with the first encoded token and ends with the last.
proof fn lemma_join_edges(v: Seq<Seq<char>>)
    requires
        v.len() > 0,
        forall|i: int| 0 <= i < v.len() ==> v[i].len() > 0,
    ensures
        join_spec(v).len() > 0,
        join_spec(v)[0] == encode_token(v[0])[0],
        join_spec(v).last() == encode_token(v.last()).last(),
    decreases v.len(),
{
    lemma_escape_edges(v.last());
    lemma_escape_edges(v[0]);
    if v.len() > 1 {
        let v0 = v.drop_last();
        assert(v0[0] == v[0]);
        assert forall|i: int| 0 <= i < v0.len() implies v0[i].len() > 0 by {
            assert(v0[i] == v[i]);
        }
        lemma_join_edges(v0);
    }
}

/// The first token does not start, and the last token does not end, with
/// white space that would stand bare at an end of the joined line (a token
/// with a space is quoted, so its ends are safe).
pub open spec fn edges_kept(v: Seq<Seq<char>>) -> bool {
    v.len() > 0 ==> {
        &&& (v[0].contains(' ') || !is_white_space(v[0][0]))
        &&& (v.last().contains(' ') || !is_white_space(v.last().last()))
    }
}

/// Tokenizing the detokenized form of non-empty tokens gives the tokens back,
/// provided the line does not start or end with bare white space, which the
/// tokenizer trims.
pub proof fn lemma_tokenize_detokenize(v: Seq<Seq<char>>)
    requires
        forall|i: int| 0 <= i < v.len() ==> v[i].len() > 0,
        edges_kept(v),
    ensures
        tokenize_spec(join_spec(v)) == Some(v),
{
    if v.len() == 0 {
        lemma_trim_noop(join_spec(v));
        assert(v =~= Seq::<Seq<char>>::empty());
    } else {
        lemma_join_edges(v);
        lemma_escape_edges(v[0]);
        lemma_escape_edges(v.last());
        lemma_trim_noop(join_spec(v));
        lemma_scan_joined(v);
        assert(v.drop_last().push(v.last()) =~= v);
    }
}

/// Splits a line into tokens.
///
/// The line is trimmed first. A `\` outside an escape starts one, a `"`
/// outside an escape opens or closes a quote, a space outside both ends the
/// current token, and any other character joins the current token and ends
/// an escape. A line that ends inside a quote or an escape is refused.
pub fn tokenize(input: &str) -> (r: QuipResult<Vec<String>>)
    ensures
        match r {
            Ok(v) => tokenize_spec(input@) == Some(strings_view(v@)),
            Err(e) => tokenize_spec(input@) is None && e is Parse,
        },
{
    let line = trim(input);
    let chars = chars_of(line);
    let mut in_quote = false;
    let mut in_escape = false;
    let mut res: Vec<String> = Vec::new();
    let mut curr = String::new();
    let mut i: usize = 0;
    proof {
        assert(chars@.take(0) =~= Seq::<char>::empty());
        assert(strings_view(res@) =~= Seq::<Seq<char>>::empty());
    }
    while i < chars.len()
        invariant
            0 <= i <= chars@.len(),
            chars@ == trimmed(input@),
            scan(scan_start(), chars@.take(i as int)) == (Scan {
                quote: in_quote,
                escape: in_escape,
                cur: curr@,
                toks: strings_view(res@),
            }),
        decreases chars@.len() - i,
    {
        let ch = chars[i];
        proof {
            assert(chars@.take(i + 1).drop_last() =~= chars@.take(i as int));
        }
        if ch == '\\' && !in_escape {
            in_escape = true;
        } else if ch == '"' && !in_escape {
            in_quote = !in_quote;
        } else if ch == ' ' && !in_quote && !in_escape {
            if !curr.as_str().is_empty() {
                let tok = curr.clone();
                let ghost before = res@;
                res.push(tok);
                curr = String::new();
                proof {
                    assert(strings_view(res@) =~= strings_view(res@.drop_last()).push(
                        res@.last()@,
                    ));
                    assert(res@.drop_last() =~= before);
                }
            }
        } else {
            push_char(&mut curr, ch);
            in_escape = false;
        }
        i = i + 1;
    }
    proof {
        assert(chars@.take(chars@.len() as int) =~= chars@);
    }
    if in_quote || in_escape {
        let mut msg = "Unexpected EOL when parsing {".to_owned();
        msg.append(input);
        msg.append("}");
        return Err(QuipError::Parse(msg));
    }
    if !curr.as_str().is_empty() {
        res.push(curr);
        proof {
            assert(strings_view(res@) =~= strings_view(res@.drop_last()).push(res@.last()@));
        }
    }
    Ok(res)
}

/// Escapes every `"` and `\` of `input` with a `\`.
fn escape_token(input: &str) -> (r: String)
    ensures
        r@ == escape_spec(input@),
{
    let chars = chars_of(input);
    let mut res = String::new();
    let mut i: usize = 0;
    proof {
        assert(chars@.take(0) =~= Seq::<char>::empty());
    }
    while i < chars.len()
        invariant
            0 <= i <= chars@.len(),
            chars@ == input@,
            res@ == escape_spec(chars@.take(i as int)),
        decreases chars@.len() - i,
    {
        let ch = chars[i];
        proof {
            assert(chars@.take(i + 1).drop_last() =~= chars@.take(i as int));
        }
        if ch == '"' || ch == '\\' {
            push_char(&mut res, '\\');
        }
        push_char(&mut res, ch);
        proof {
            assert(res@ =~= escape_spec(chars@.take(i as int)) + escape_char(ch));
        }
        i = i + 1;
    }
    proof {
        assert(chars@.take(chars@.len() as int) =~= chars@);
    }
    res
}

/// Whether `input` holds a space.
fn has_space(input: &str) -> (r: bool)
    ensures
        r == input@.contains(' '),
{
    let chars = chars_of(input);
    let mut i: usize = 0;
    while i < chars.len()
        invariant
            0 <= i <= chars@.len(),
            chars@ == input@,
            forall|j: int| 0 <= j < i ==> chars@[j] != ' ',
        decreases chars@.len() - i,
    {
        if chars[i] == ' ' {
            assert(input@[i as int] == ' ');
            return true;
        }
        i = i + 1;
    }
    false
}

/// One token as it goes on the wire.
fn encode(item: &str) -> (r: String)
    ensures
        r@ == encode_token(item@),
{
    if has_space(item) {
        let mut curr = String::new();
        push_char(&mut curr, '"');
        let esc = escape_token(item);
        curr.append(esc.as_str());
        push_char(&mut curr, '"');
        proof {
            assert(curr@ =~= seq!['"'] + escape_spec(item@) + seq!['"']);
        }
        curr
    } else {
        escape_token(item)
    }
}

/// Joins tokens into one line that `tokenize` reads back: each token is
/// escaped, quoted when it holds a space, and tokens are separated by single
/// spaces.
pub fn detokenize(input: &Vec<&str>) -> (r: String)
    ensures
        r@ == join_spec(strs_view(input@)),
{
    let ghost v = strs_view(input@);
    let mut res = String::new();
    let mut i: usize = 0;
    proof {
        assert(v.take(0) =~= Seq::<Seq<char>>::empty());
    }
    while i < input.len()
        invariant
            0 <= i <= input@.len(),
            v == strs_view(input@),
            res@ == join_spec(v.take(i as int)),
        decreases input@.len() - i,
    {
        let item: &str = input[i];
        proof {
            assert(v.take(i + 1).drop_last() =~= v.take(i as int));
            assert(v.take(i + 1).last() == item@);
        }
        if i > 0 {
            push_char(&mut res, ' ');
        }
        let enc = encode(item);
        res.append(enc.as_str());
        proof {
            if i == 0 {
                assert(res@ =~= encode_token(v.take(1)[0]));
            } else {
                assert(res@ =~= join_spec(v.take(i as int)) + seq![' '] + encode_token(item@));
            }
        }
        i = i + 1;
    }
    proof {
        assert(v.take(input@.len() as int) =~= v);
    }
    res
}

} // verus!
