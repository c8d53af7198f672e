//! Word wrapping for console output.
use vstd::prelude::*;
use vstd::string::StringSliceAdditionalSpecFns;
use vstd::utf8::{decode_utf8, encode_utf8, is_char_boundary, valid_utf8, is_continuation_byte};
use crate::text::{owned, push_str, push_char, chars_of, string_of_chars, is_ws, is_ws_exec};

verus! {

/// The length of a text in UTF-8 bytes.
pub open spec fn blen(s: Seq<char>) -> nat {
    encode_utf8(s).len()
}

/// The words found so far and the word being read, after reading `s`.
pub open spec fn words_state(s: Seq<char>) -> (Seq<Seq<char>>, Seq<char>)
    decreases s.len(),
{
    if s.len() == 0 {
        (Seq::empty(), Seq::empty())
    } else {
        let (ws, cur) = words_state(s.drop_last());
        let c = s.last();
        if is_ws(c) {
            if cur.len() > 0 { (ws.push(cur), Seq::empty()) } else { (ws, Seq::empty()) }
        } else {
            (ws, cur.push(c))
        }
    }
}

/// The words of a text: its maximal runs of non-whitespace characters.
pub open spec fn words(s: Seq<char>) -> Seq<Seq<char>> {
    let (ws, cur) = words_state(s);
    if cur.len() > 0 { ws.push(cur) } else { ws }
}

/// The pieces of `b` from byte `start` on, `width` bytes each (the last
/// one shorter), as text.
pub open spec fn chunks(b: Seq<u8>, width: nat, start: nat) -> Seq<Seq<char>>
    decreases b.len() - start,
{
    if width == 0 || start >= b.len() {
        Seq::empty()
    } else {
        let end: nat = if start + width < b.len() { start + width } else { b.len() };
        seq![decode_utf8(b.subrange(start as int, end as int))] + chunks(b, width, end)
    }
}

/// The lines so far and the line being filled, after adding `w`: a word
/// that does not fit (with its separating space) ends the current line
/// and starts a new one, or, when longer than the width itself, is cut
/// into lines of `width` bytes.
pub open spec fn wrap_step(st: (Seq<Seq<char>>, Seq<char>), w: Seq<char>, width: nat) -> (Seq<Seq<char>>, Seq<char>) {
    let (lines, cur) = st;
    if blen(cur) + blen(w) + 1 > width {
        let l1 = if cur.len() > 0 { lines.push(cur) } else { lines };
        if blen(w) > width { (l1 + chunks(encode_utf8(w), width, 0), Seq::empty()) } else { (l1, w) }
    } else {
        (lines, if cur.len() > 0 { cur.push(' ') + w } else { w })
    }
}

pub open spec fn wrap_words(ws: Seq<Seq<char>>, width: nat) -> (Seq<Seq<char>>, Seq<char>)
    decreases ws.len(),
{
    if ws.len() == 0 { (Seq::empty(), Seq::empty()) } else { wrap_step(wrap_words(ws.drop_last(), width), ws.last(), width) }
}

/// A text wrapped to `width` bytes per line.
pub open spec fn wrapped(s: Seq<char>, width: nat) -> Seq<Seq<char>> {
    let (lines, cur) = wrap_words(words(s), width);
    if cur.len() > 0 { lines.push(cur) } else { lines }
}

pub open spec fn boundary_at(b: Seq<u8>, k: nat, width: nat) -> bool {
    is_char_boundary(b, (k * width) as int)
}

/// Every cut a long word is split at falls between characters.
pub open spec fn cuttable(text: Seq<char>, width: nat) -> bool {
    forall|i: int, k: nat| 0 <= i < words(text).len() && blen(words(text)[i]) > width && 0 < k * width < blen(words(text)[i])
        ==> #[trigger] boundary_at(encode_utf8(words(text)[i]), k, width)
}

fn words_of(text: &str) -> (r: Vec<String>)
    ensures
        r@.map_values(|w: String| w@) == words(text@),
{
    let v = chars_of(text);
    let mut out: Vec<String> = Vec::new();
    let mut start: usize = 0;
    let mut i: usize = 0;
    while i < v.len()
        invariant
            i <= v@.len(),
            start <= i,
            v@ == text@,
            out@.map_values(|w: String| w@) == words_state(v@.subrange(0, i as int)).0,
            v@.subrange(start as int, i as int) == words_state(v@.subrange(0, i as int)).1,
        decreases v@.len() - i,
    {
        let ghost pre = v@.subrange(0, i as int);
        assert(v@.subrange(0, i + 1).drop_last() =~= pre);
        if is_ws_exec(v[i]) {
            if start < i {
                let w = string_of_chars(&v, start, i);
                let ghost before = out@;
                out.push(w);
                assert(out@.map_values(|w: String| w@) =~= before.map_values(|w: String| w@).push(w@));
            }
            start = i + 1;
            i = i + 1;
            assert(v@.subrange(start as int, i as int) =~= Seq::<char>::empty());
        } else {
            i = i + 1;
            assert(v@.subrange(start as int, i as int) =~= v@.subrange(start as int, i - 1).push(v@[i - 1]));
        }
    }
    assert(v@.subrange(0, i as int) =~= v@);
    if start < i {
        let w = string_of_chars(&v, start, i);
        let ghost before = out@;
        out.push(w);
        assert(out@.map_values(|w: String| w@) =~= before.map_values(|w: String| w@).push(w@));
    }
    out
}

fn byte_len(s: &String) -> (r: usize)
    ensures
        r == blen(s@),
{
    s.as_str().as_bytes().len()
}

proof fn lemma_boundary_in_tail(b: Seq<u8>, start: int, j: int)
    requires
        valid_utf8(b),
        is_char_boundary(b, start),
        0 <= start,
        0 < j,
        start + j < b.len(),
        is_char_boundary(b, start + j),
    ensures
        valid_utf8(b.subrange(start, b.len() as int)),
        is_char_boundary(b.subrange(start, b.len() as int), j),
{
    broadcast use vstd::utf8::valid_utf8_split;
    let t = b.subrange(start, b.len() as int);
    assert(valid_utf8(t));
    vstd::utf8::is_char_boundary_iff_not_is_continuation_byte(b, start + j);
    vstd::utf8::is_char_boundary_iff_not_is_continuation_byte(t, j);
    assert(t[j] == b[start + j]);
}

/// The pieces of a long word, `width` bytes each.
fn push_chunks(lines: &mut Vec<String>, word: &String, width: usize)
    requires
        width > 0,
        forall|k: nat| 0 < k * width < blen(word@) ==> #[trigger] boundary_at(encode_utf8(word@), k, width as nat),
    ensures
        final(lines)@.map_values(|l: String| l@) == old(lines)@.map_values(|l: String| l@)
            + chunks(encode_utf8(word@), width as nat, 0),
{
    broadcast use vstd::utf8::encode_utf8_valid_utf8, vstd::utf8::encode_utf8_decode_utf8,
        vstd::utf8::is_char_boundary_start_end_of_seq;
    let w = word.as_str();
    let n = w.as_bytes().len();
    let ghost b = encode_utf8(word@);
    let ghost orig = old(lines)@.map_values(|l: String| l@);
    let mut start: usize = 0;
    let ghost mut k: nat = 0;
    assert(valid_utf8(b));
    while start < n
        invariant
            n == b.len(),
            b == w.spec_bytes(),
            valid_utf8(b),
            start <= n,
            width > 0,
            start == n || start == k * width,
            is_char_boundary(b, start as int),
            forall|k: nat| 0 < k * width < b.len() ==> #[trigger] boundary_at(b, k, width as nat),
            orig + chunks(b, width as nat, 0) == lines@.map_values(|l: String| l@) + chunks(b, width as nat, start as nat),
        decreases n - start,
    {
        let end: usize = if width < n - start { start + width } else { n };
        let (_, rest) = w.split_at(start);
        proof {
            assert((k + 1) * width == k * width + width) by (nonlinear_arith);
            if end < n {
                assert(boundary_at(b, k + 1, width as nat));
                assert(is_char_boundary(b, end as int));
                lemma_boundary_in_tail(b, start as int, (end - start) as int);
            } else {
                vstd::utf8::valid_utf8_split(b, start as int);
                vstd::utf8::is_char_boundary_start_end_of_seq(b);
                vstd::utf8::is_char_boundary_start_end_of_seq(b.subrange(start as int, n as int));
                assert(rest.spec_bytes() == b.subrange(start as int, n as int));
            }
        }
        let (piece, _) = rest.split_at(end - start);
        proof {
            assert(piece.spec_bytes() =~= b.subrange(start as int, end as int));
            vstd::utf8::encode_utf8_decode_utf8(piece@);
        }
        let ghost before = lines@;
        lines.push(owned(piece));
        proof {
            assert(lines@.map_values(|l: String| l@) =~= before.map_values(|l: String| l@).push(piece@));
            let c = chunks(b, width as nat, start as nat);
            assert(c == seq![decode_utf8(b.subrange(start as int, end as int))] + chunks(b, width as nat, end as nat));
            assert(seq![piece@] + chunks(b, width as nat, end as nat) == c);
            assert(before.map_values(|l: String| l@) + c
                =~= before.map_values(|l: String| l@).push(piece@) + chunks(b, width as nat, end as nat));
            k = k + 1;
        }
        start = end;
    }
    proof {
        assert(chunks(b, width as nat, start as nat) == Seq::<Seq<char>>::empty());
        assert(orig + chunks(b, width as nat, 0) =~= lines@.map_values(|l: String| l@));
    }
}

/// Whether `wrap` takes `text` at `width`: a width for the words there
/// are, and every cut of a long word between characters.
pub fn can_wrap(text: &str, width: usize) -> (r: bool)
    ensures
        r == ((width > 0 || words(text@).len() == 0) && cuttable(text@, width as nat)),
{
    let ws = words_of(text);
    let ghost all = words(text@);
    if width == 0 {
        return ws.len() == 0;
    }
    let mut i: usize = 0;
    while i < ws.len()
        invariant
            width > 0,
            i <= ws@.len(),
            ws@.map_values(|w: String| w@) == all,
            all == words(text@),
            forall|a: int, k: nat| 0 <= a < i && blen(all[a]) > width && 0 < k * width < blen(all[a])
                ==> #[trigger] boundary_at(encode_utf8(all[a]), k, width as nat),
        decreases ws@.len() - i,
    {
        let w = ws[i].as_str();
        let n = w.as_bytes().len();
        assert(all[i as int] == w@);
        if n > width {
            let last: usize = (n - 1) / width;
            let mut k: usize = 1;
            while k <= last
                invariant
                    width > 0,
                    i < ws@.len(),
                    ws@.map_values(|x: String| x@) == all,
                    all == words(text@),
                    all[i as int] == w@,
                    n == blen(w@),
                    n > width,
                    last == (n - 1) / (width as int),
                    1 <= k,
                    forall|q: nat| 1 <= q < k ==> #[trigger] is_char_boundary(encode_utf8(w@), (q * width) as int),
                decreases last + 1 - k,
            {
                assert(k * width <= n - 1) by (nonlinear_arith)
                    requires k <= last, last == (n - 1) / (width as int), width > 0, n > width;
                let m = k * width;
                if !w.is_char_boundary(m) {
                    proof {
                        assert(0 < k * width) by (nonlinear_arith)
                            requires k >= 1, width > 0;
                        assert(!boundary_at(encode_utf8(all[i as int]), k as nat, width as nat));
                        assert(!cuttable(text@, width as nat));
                    }
                    return false;
                }
                k = k + 1;
            }
            proof {
                assert forall|q: nat| 0 < q * width < blen(all[i as int]) implies
                    #[trigger] boundary_at(encode_utf8(all[i as int]), q, width as nat) by {
                    assert(q >= 1) by (nonlinear_arith)
                        requires 0 < q * width, width > 0;
                    assert(q <= last) by (nonlinear_arith)
                        requires q * width < n, last == (n - 1) / (width as int), width > 0;
                }
            }
        }
        i = i + 1;
    }
    true
}

/// Wraps text into lines of at most `width` bytes where its words allow:
/// words are packed with single spaces, and a word longer than the width
/// is cut into pieces of `width` bytes.
pub fn wrap(text: &str, width: usize) -> (r: Vec<String>)
    requires
        width > 0 || words(text@).len() == 0,
        cuttable(text@, width as nat),
    ensures
        r@.map_values(|l: String| l@) == wrapped(text@, width as nat),
{
    let ws = words_of(text);
    let ghost all = words(text@);
    let mut lines: Vec<String> = Vec::new();
    let mut current = String::new();
    let mut i: usize = 0;
    while i < ws.len()
        invariant
            i <= ws@.len(),
            ws@.map_values(|w: String| w@) == all,
            all == words(text@),
            width > 0 || all.len() == 0,
            cuttable(text@, width as nat),
            (lines@.map_values(|l: String| l@), current@) == wrap_words(all.subrange(0, i as int), width as nat),
        decreases ws@.len() - i,
    {
        let word = &ws[i];
        let ghost st = (lines@.map_values(|l: String| l@), current@);
        proof {
            assert(all.subrange(0, i + 1).drop_last() =~= all.subrange(0, i as int));
            assert(all[i as int] == word@);
        }
        let cl = byte_len(&current);
        let wl = byte_len(word);
        if cl >= width || wl >= width - cl {
            if !current.as_str().is_empty() {
                let done = current;
                let ghost before = lines@;
                lines.push(done);
                assert(lines@.map_values(|l: String| l@) =~= before.map_values(|l: String| l@).push(st.1));
                current = String::new();
            }
            if wl > width {
                proof {
                    assert forall|k: nat| 0 < k * width < blen(word@) implies
                        #[trigger] boundary_at(encode_utf8(word@), k, width as nat) by {
                        assert(boundary_at(encode_utf8(all[i as int]), k, width as nat));
                    }
                }
                push_chunks(&mut lines, word, width);
            } else {
                current = copy_text(word);
            }
        } else {
            if !current.as_str().is_empty() {
                push_char(&mut current, ' ');
            }
            push_str(&mut current, word.as_str());
        }
        i = i + 1;
        proof {
            assert(wrap_words(all.subrange(0, i as int), width as nat) == wrap_step(st, word@, width as nat));
        }
    }
    assert(all.subrange(0, i as int) =~= all);
    if !current.as_str().is_empty() {
        let ghost before = lines@;
        let ghost last = current@;
        lines.push(current);
        assert(lines@.map_values(|l: String| l@) =~= before.map_values(|l: String| l@).push(last));
    }
    lines
}

fn copy_text(s: &String) -> (r: String)
    ensures
        r@ == s@,
{
    owned(s.as_str())
}

/// Every line is non-empty and at most `width` bytes long.
pub open spec fn lines_fit(ls: Seq<Seq<char>>, width: nat) -> bool {
    forall|i: int| 0 <= i < ls.len() ==> (#[trigger] ls[i]).len() > 0 && blen(ls[i]) <= width
}

proof fn lemma_encode_concat(a: Seq<char>, b: Seq<char>)
    ensures
        encode_utf8(a + b) == encode_utf8(a) + encode_utf8(b),
    decreases a.len(),
{
    if a.len() > 0 {
        lemma_encode_concat(a.drop_first(), b);
        assert((a + b).drop_first() =~= a.drop_first() + b);
        assert(encode_utf8(a + b) =~= encode_utf8(a) + encode_utf8(b));
    } else {
        assert(a + b =~= b);
        assert(encode_utf8(a) =~= Seq::<u8>::empty());
        assert(encode_utf8(a) + encode_utf8(b) =~= encode_utf8(b));
    }
}

proof fn lemma_words_state_nonempty(s: Seq<char>)
    ensures
        forall|i: int| 0 <= i < words_state(s).0.len() ==> (#[trigger] words_state(s).0[i]).len() > 0,
    decreases s.len(),
{
    if s.len() > 0 {
        lemma_words_state_nonempty(s.drop_last());
        let (ws, cur) = words_state(s.drop_last());
        let n = words_state(s).0;
        assert forall|i: int| 0 <= i < n.len() implies (#[trigger] n[i]).len() > 0 by {
            if i < ws.len() {
                assert(n[i] == ws[i]);
            }
        }
    }
}

/// The words of a text are non-empty.
proof fn lemma_words_nonempty(s: Seq<char>)
    ensures
        forall|i: int| 0 <= i < words(s).len() ==> (#[trigger] words(s)[i]).len() > 0,
{
    lemma_words_state_nonempty(s);
}

/// The bytes between two character boundaries decode to a non-empty text
/// of exactly that many bytes.
proof fn lemma_piece(b: Seq<u8>, start: int, end: int)
    requires
        valid_utf8(b),
        0 <= start < end <= b.len(),
        is_char_boundary(b, start),
        is_char_boundary(b, end),
    ensures
        decode_utf8(b.subrange(start, end)).len() > 0,
        blen(decode_utf8(b.subrange(start, end))) == end - start,
{
    broadcast use vstd::utf8::valid_utf8_split, vstd::utf8::is_char_boundary_start_end_of_seq;
    let t = b.subrange(start, b.len() as int);
    vstd::utf8::valid_utf8_split(b, start);
    let p = b.subrange(start, end);
    if end < b.len() {
        lemma_boundary_in_tail(b, start, end - start);
        vstd::utf8::valid_utf8_split(t, end - start);
        assert(t.subrange(0, end - start) =~= p);
    } else {
        assert(t =~= p);
    }
    assert(valid_utf8(p));
    vstd::utf8::decode_utf8_encode_utf8(p);
    if decode_utf8(p).len() == 0 {
        assert(decode_utf8(p) =~= Seq::<char>::empty());
        assert(encode_utf8(Seq::<char>::empty()) =~= Seq::<u8>::empty());
    }
}

proof fn lemma_chunks_fit(b: Seq<u8>, width: nat, k: nat)
    requires
        valid_utf8(b),
        width > 0,
        k * width <= b.len(),
        forall|j: nat| 0 < j * width < b.len() ==> #[trigger] boundary_at(b, j, width),
    ensures
        lines_fit(chunks(b, width, k * width), width),
    decreases b.len() - k * width,
{
    broadcast use vstd::utf8::is_char_boundary_start_end_of_seq;
    let start = k * width;
    if start < b.len() {
        assert((k + 1) * width == start + width) by (nonlinear_arith)
            requires start == k * width;
        let end: nat = if start + width < b.len() { start + width } else { b.len() };
        if start > 0 {
            assert(boundary_at(b, k, width));
        }
        assert(is_char_boundary(b, start as int));
        if end < b.len() {
            assert(boundary_at(b, k + 1, width));
        }
        assert(is_char_boundary(b, end as int));
        lemma_piece(b, start as int, end as int);
        let rest = chunks(b, width, end);
        if end < b.len() {
            lemma_chunks_fit(b, width, k + 1);
        } else {
            assert(rest =~= Seq::<Seq<char>>::empty());
        }
        let c = chunks(b, width, start);
        assert(c == seq![decode_utf8(b.subrange(start as int, end as int))] + rest);
        assert forall|i: int| 0 <= i < c.len() implies (#[trigger] c[i]).len() > 0 && blen(c[i]) <= width by {
            if i > 0 {
                assert(c[i] == rest[i - 1]);
            }
        }
    }
}

proof fn lemma_wrap_words_fit(ws: Seq<Seq<char>>, width: nat)
    requires
        width > 0,
        forall|i: int| 0 <= i < ws.len() ==> (#[trigger] ws[i]).len() > 0,
        forall|i: int, k: nat| 0 <= i < ws.len() && blen(ws[i]) > width && 0 < k * width < blen(ws[i])
            ==> #[trigger] boundary_at(encode_utf8(ws[i]), k, width),
    ensures
        lines_fit(wrap_words(ws, width).0, width),
        blen(wrap_words(ws, width).1) <= width,
    decreases ws.len(),
{
    broadcast use vstd::utf8::encode_utf8_valid_utf8;
    if ws.len() > 0 {
        let pre = ws.drop_last();
        assert forall|i: int, k: nat| 0 <= i < pre.len() && blen(pre[i]) > width && 0 < k * width < blen(pre[i])
            implies #[trigger] boundary_at(encode_utf8(pre[i]), k, width) by {
            assert(pre[i] == ws[i]);
            assert(boundary_at(encode_utf8(ws[i]), k, width));
        }
        lemma_wrap_words_fit(pre, width);
        let (lines, cur) = wrap_words(pre, width);
        let w = ws.last();
        assert(w == ws[ws.len() - 1]);
        assert(w.len() > 0);
        if blen(cur) + blen(w) + 1 > width {
            let l1 = if cur.len() > 0 { lines.push(cur) } else { lines };
            assert(lines_fit(l1, width)) by {
                assert forall|i: int| 0 <= i < l1.len() implies (#[trigger] l1[i]).len() > 0 && blen(l1[i]) <= width by {
                    if i < lines.len() {
                        assert(l1[i] == lines[i]);
                    }
                }
            }
            if blen(w) > width {
                let b = encode_utf8(w);
                assert forall|j: nat| 0 < j * width < b.len() implies #[trigger] boundary_at(b, j, width) by {
                    assert(boundary_at(encode_utf8(ws[ws.len() - 1]), j, width));
                }
                assert(0 * width == 0);
                lemma_chunks_fit(b, width, 0);
                let c = chunks(b, width, 0);
                let all = l1 + c;
                assert forall|i: int| 0 <= i < all.len() implies (#[trigger] all[i]).len() > 0 && blen(all[i]) <= width by {
                    if i < l1.len() {
                        assert(all[i] == l1[i]);
                    } else {
                        assert(all[i] == c[i - l1.len()]);
                    }
                }
                assert(encode_utf8(Seq::<char>::empty()) =~= Seq::<u8>::empty());
            }
        } else {
            if cur.len() > 0 {
                lemma_encode_concat(cur.push(' '), w);
                lemma_encode_concat(cur, seq![' ']);
                assert(cur + seq![' '] =~= cur.push(' '));
                assert(encode_utf8(seq![' ']).len() == 1) by {
                    assert(seq![' '].drop_first() =~= Seq::<char>::empty());
                    assert(encode_utf8(Seq::<char>::empty()) =~= Seq::<u8>::empty());
                    reveal_with_fuel(encode_utf8, 2);
                }
            }
        }
    }
}

/// Every line of a wrapped text is non-empty and at most `width` bytes
/// long, where a positive width and character-boundary cuts let the text
/// be wrapped.
pub proof fn law_wrapped_lines_fit(text: Seq<char>, width: nat)
    requires
        width > 0,
        cuttable(text, width),
    ensures
        lines_fit(wrapped(text, width), width),
{
    lemma_words_nonempty(text);
    let ws = words(text);
    assert forall|i: int, k: nat| 0 <= i < ws.len() && blen(ws[i]) > width && 0 < k * width < blen(ws[i])
        implies #[trigger] boundary_at(encode_utf8(ws[i]), k, width) by {
    }
    lemma_wrap_words_fit(ws, width);
    let (lines, cur) = wrap_words(ws, width);
    if cur.len() > 0 {
        let all = lines.push(cur);
        assert forall|i: int| 0 <= i < all.len() implies (#[trigger] all[i]).len() > 0 && blen(all[i]) <= width by {
            if i < lines.len() {
                assert(all[i] == lines[i]);
            }
        }
    }
}

} // verus!
