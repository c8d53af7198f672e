//! Formatting of report fields: function names and paths shortened to a
//! limit, call stacks on one line, CSV escaping and digit grouping.
use vstd::prelude::*;
use vstd::string::StringSliceAdditionalSpecFns;
use vstd::utf8::{decode_utf8, encode_utf8, is_char_boundary};
use crate::text::{owned, push_str, push_char, chars_of, string_of_chars, u64_to_string, dec_seq, join_seq};
use crate::winpath::{is_sep, trim_seps, path_file_name, file_name, file_name_or_path, file_name_or_whole};

verus! {

/// Index of the last byte `x` in `b`, or -1.
pub open spec fn last_byte(b: Seq<u8>, x: u8) -> int
    decreases b.len(),
{
    if b.len() == 0 { -1 } else if b.last() == x { b.len() - 1 } else { last_byte(b.drop_last(), x) }
}

proof fn lemma_last_byte(b: Seq<u8>, x: u8)
    ensures
        -1 <= last_byte(b, x) < b.len(),
        last_byte(b, x) >= 0 ==> b[last_byte(b, x)] == x,
        forall|j: int| last_byte(b, x) < j < b.len() ==> b[j] != x,
    decreases b.len(),
{
    if b.len() > 0 && b.last() != x {
        lemma_last_byte(b.drop_last(), x);
        assert forall|j: int| last_byte(b, x) < j < b.len() implies b[j] != x by {
            if j < b.len() - 1 {
                assert(b.drop_last()[j] == b[j]);
            }
        }
    }
}

/// `a - b`, or 0 when `b` is larger.
pub open spec fn sat_sub(a: int, b: int) -> int {
    if a >= b { a - b } else { 0 }
}

/// Where a function name longer than `max` bytes is cut: the kept tail
/// starts there, and `...` goes in front of it. The tail is the last
/// `max - 3` bytes, or, when the name has a `module!` prefix and the part
/// after the last `!` is shorter than that, the part after the `!` together
/// with as much of the module's end as fits (none when nothing fits).
pub open spec fn fn_name_cut(b: Seq<u8>, max: nat) -> int {
    let avail = sat_sub(max as int, 3);
    let pos = last_byte(b, 0x21u8);
    if pos >= 0 {
        let func_len = b.len() - pos - 1;
        if func_len >= avail {
            b.len() - avail
        } else {
            let keep = sat_sub(avail, func_len + 1);
            if keep > 0 && pos > keep { pos - keep } else { pos + 1 }
        }
    } else {
        b.len() - avail
    }
}

/// `...` followed by the characters of the bytes of `b` from `cut` on.
pub open spec fn ellipsis_tail(b: Seq<u8>, cut: int) -> Seq<char> {
    "..."@ + decode_utf8(b.subrange(cut, b.len() as int))
}

/// Leading separators dropped.
pub open spec fn skip_seps(s: Seq<char>) -> Seq<char>
    decreases s.len(),
{
    if s.len() > 0 && is_sep(s[0]) { skip_seps(s.drop_first()) } else { s }
}

/// `path` relative to `base`, when `base` names a leading run of its
/// components.
pub open spec fn strip_base(path: Seq<char>, base: Seq<char>) -> Option<Seq<char>> {
    let b = trim_seps(base);
    if base.len() == 0 {
        Some(path)
    } else if b.len() == 0 {
        if path.len() > 0 && is_sep(path[0]) { Some(skip_seps(path)) } else { None }
    } else if b.len() <= path.len() && path.subrange(0, b.len() as int) == b
        && (path.len() == b.len() || is_sep(path[b.len() as int])) {
        Some(skip_seps(path.subrange(b.len() as int, path.len() as int)))
    } else {
        None
    }
}

/// Paths longer than this many bytes are shortened.
pub const MAX_PATH_LENGTH: usize = 256;

/// How a file path is shown: relative to `base` when it lies under it;
/// else, when longer than `MAX_PATH_LENGTH` bytes, `.../` and its file
/// name (the file name alone when that name leaves at most ten bytes of
/// room), or `...` and its last `MAX_PATH_LENGTH - 3` bytes when it has no
/// file name; else unchanged.
pub open spec fn file_path_shown(path: &str, base: Option<Seq<char>>) -> Seq<char> {
    let rel = match base {
        Some(b) => strip_base(path@, b),
        None => None,
    };
    if rel is Some {
        rel->0
    } else if path.spec_bytes().len() > MAX_PATH_LENGTH {
        match path_file_name(path@) {
            Some(f) => if sat_sub(MAX_PATH_LENGTH as int, encode_utf8(f).len() + 4int) > 10 { ".../"@ + f } else { f },
            None => ellipsis_tail(path.spec_bytes(), path.spec_bytes().len() - (MAX_PATH_LENGTH - 3)),
        }
    } else {
        path@
    }
}

/// Whether a CSV field must be quoted.
pub open spec fn needs_quoting(s: Seq<char>, delimiter: char) -> bool {
    s.contains(delimiter) || s.contains('"') || s.contains('\n') || s.contains('\r')
}

/// `s` with every `"` doubled.
pub open spec fn double_quotes(s: Seq<char>) -> Seq<char>
    decreases s.len(),
{
    if s.len() == 0 {
        Seq::empty()
    } else if s.last() == '"' {
        double_quotes(s.drop_last()) + seq!['"', '"']
    } else {
        double_quotes(s.drop_last()).push(s.last())
    }
}

/// A CSV field: quoted, with quotes doubled, when it needs quoting.
pub open spec fn csv_field(s: Seq<char>, delimiter: char) -> Seq<char> {
    if needs_quoting(s, delimiter) { seq!['"'] + double_quotes(s) + seq!['"'] } else { s }
}

/// Decimal digits with a `,` between groups of three, counted from the
/// right.
pub open spec fn group_digits(d: Seq<char>) -> Seq<char>
    decreases d.len(),
{
    if d.len() <= 3 {
        d
    } else {
        group_digits(d.subrange(0, d.len() - 3)).push(',') + d.subrange(d.len() - 3, d.len() as int)
    }
}

/// `s` without its commas.
pub open spec fn strip_commas(s: Seq<char>) -> Seq<char>
    decreases s.len(),
{
    if s.len() == 0 {
        s
    } else if s.last() == ',' {
        strip_commas(s.drop_last())
    } else {
        strip_commas(s.drop_last()).push(s.last())
    }
}

proof fn lemma_strip_commas_add(a: Seq<char>, b: Seq<char>)
    ensures
        strip_commas(a + b) == strip_commas(a) + strip_commas(b),
    decreases b.len(),
{
    if b.len() == 0 {
        assert(a + b =~= a);
        assert(strip_commas(a) + strip_commas(b) =~= strip_commas(a));
    } else {
        assert((a + b).drop_last() =~= a + b.drop_last());
        lemma_strip_commas_add(a, b.drop_last());
        if b.last() != ',' {
            assert(strip_commas(a) + strip_commas(b.drop_last()).push(b.last())
                =~= (strip_commas(a) + strip_commas(b.drop_last())).push(b.last()));
        }
    }
}

proof fn lemma_strip_comma_free(s: Seq<char>)
    requires
        !s.contains(','),
    ensures
        strip_commas(s) == s,
    decreases s.len(),
{
    if s.len() > 0 {
        assert(!s.drop_last().contains(',')) by {
            if s.drop_last().contains(',') {
                let k = choose|k: int| 0 <= k < s.drop_last().len() && s.drop_last()[k] == ',';
                assert(s[k] == ',');
            }
        }
        lemma_strip_comma_free(s.drop_last());
        assert(s.last() != ',') by {
            assert(s[s.len() - 1] == s.last());
        }
        assert(s.drop_last().push(s.last()) =~= s);
    }
}

proof fn lemma_grouped_digits(d: Seq<char>)
    requires
        !d.contains(','),
    ensures
        strip_commas(group_digits(d)) == d,
    decreases d.len(),
{
    if d.len() > 3 {
        let p = d.subrange(0, d.len() - 3);
        let q = d.subrange(d.len() - 3, d.len() as int);
        assert(!p.contains(',')) by {
            if p.contains(',') {
                let k = choose|k: int| 0 <= k < p.len() && p[k] == ',';
                assert(d[k] == ',');
            }
        }
        assert(!q.contains(',')) by {
            if q.contains(',') {
                let k = choose|k: int| 0 <= k < q.len() && q[k] == ',';
                assert(d[d.len() - 3 + k] == ',');
            }
        }
        lemma_grouped_digits(p);
        lemma_strip_comma_free(q);
        let g = group_digits(p).push(',');
        lemma_strip_commas_add(g, q);
        assert(g.drop_last() =~= group_digits(p));
        assert(p + q =~= d);
    } else {
        lemma_strip_comma_free(d);
    }
}

proof fn lemma_dec_comma_free(n: nat)
    ensures
        !dec_seq(n).contains(','),
    decreases n,
{
    if n >= 10 {
        lemma_dec_comma_free(n / 10);
        let s = dec_seq(n);
        assert(!s.contains(',')) by {
            if s.contains(',') {
                let k = choose|k: int| 0 <= k < s.len() && s[k] == ',';
                if k < s.len() - 1 {
                    assert(dec_seq(n / 10)[k] == ',');
                }
            }
        }
    }
}

/// Grouping a number's digits with separators loses no digit: dropping the
/// commas from `format_number`'s text gives the plain decimal number.
pub proof fn law_grouping_keeps_digits(value: u64)
    ensures
        strip_commas(group_digits(dec_seq(value as nat))) == dec_seq(value as nat),
{
    lemma_dec_comma_free(value as nat);
    lemma_grouped_digits(dec_seq(value as nat));
}

/// A call stack on one line: its first `max_depth` frames, each escaped as
/// a CSV field, joined with `;`.
pub open spec fn call_stack_line(stack: Seq<String>, max_depth: nat) -> Seq<char> {
    let depth = if stack.len() < max_depth { stack.len() } else { max_depth };
    join_seq(stack.subrange(0, depth as int).map_values(|f: String| csv_field(f@, ',')), ';')
}

/// Where `format_function_name` cuts a name longer than `max_length`.
fn name_cut(name: &str, max_length: usize) -> (r: usize)
    requires
        name.spec_bytes().len() > max_length,
    ensures
        r == fn_name_cut(name.spec_bytes(), max_length as nat),
{
    let bytes = name.as_bytes();
    let ghost b = name.spec_bytes();
    let n = bytes.len();
    let avail: usize = if max_length >= 3 { max_length - 3 } else { 0 };
    let mut j: usize = n;
    while j > 0 && bytes[j - 1] != 0x21u8
        invariant
            j <= n,
            n == b.len(),
            bytes@ == b,
            forall|k: int| j <= k < n ==> b[k] != 0x21u8,
        decreases j,
    {
        j = j - 1;
    }
    proof {
        lemma_last_byte(b, 0x21u8);
        if j > 0 {
            assert(last_byte(b, 0x21u8) == j - 1) by {
                lemma_last_byte_at(b, 0x21u8, j - 1);
            }
        } else {
            assert(last_byte(b, 0x21u8) == -1) by {
                lemma_last_byte_at(b, 0x21u8, -1);
            }
        }
    }
    let cut: usize = if j > 0 {
        let pos = j - 1;
        let func_len = n - pos - 1;
        if func_len >= avail {
            n - avail
        } else {
            let keep: usize = if avail >= func_len + 1 { avail - (func_len + 1) } else { 0 };
            if keep > 0 && pos > keep { pos - keep } else { pos + 1 }
        }
    } else {
        n - avail
    };
    cut
}

/// Whether `format_function_name` can shorten `name` to `max_length`
/// bytes: it fits, or its cut falls between characters.
pub fn function_name_cuttable(name: &str, max_length: usize) -> (r: bool)
    ensures
        r == (name.spec_bytes().len() <= max_length
            || is_char_boundary(name.spec_bytes(), fn_name_cut(name.spec_bytes(), max_length as nat))),
{
    if name.as_bytes().len() <= max_length {
        return true;
    }
    let cut = name_cut(name, max_length);
    name.is_char_boundary(cut)
}

/// Formatting helpers for report fields.
pub struct ReportFormatter;

impl ReportFormatter {
    /// Shortens a function name to at most `max_length` bytes, keeping its
    /// end (the part after `!` where it can) behind `...`.
    pub fn format_function_name(name: &str, max_length: usize) -> (r: String)
        requires
            name.spec_bytes().len() > max_length ==> is_char_boundary(name.spec_bytes(),
                fn_name_cut(name.spec_bytes(), max_length as nat)),
        ensures
            r@ == if name.spec_bytes().len() <= max_length {
                name@
            } else {
                ellipsis_tail(name.spec_bytes(), fn_name_cut(name.spec_bytes(), max_length as nat))
            },
    {
        let n = name.as_bytes().len();
        if n <= max_length {
            return owned(name);
        }
        let cut = name_cut(name, max_length);
        let ghost b = name.spec_bytes();
        let (_, tail) = name.split_at(cut);
        proof {
            broadcast use vstd::utf8::encode_utf8_decode_utf8;
            assert(decode_utf8(encode_utf8(tail@)) == tail@);
        }
        let mut s = owned("...");
        push_str(&mut s, tail);
        s
    }

    /// A file path for a report, as `file_path_shown` describes it.
    pub fn format_file_path(path: &str, base_dir: Option<&str>) -> (r: String)
        requires
            ({
                let rel = match base_dir { Some(b) => strip_base(path@, b@), None => None };
                rel is None && path.spec_bytes().len() > MAX_PATH_LENGTH && path_file_name(path@) is None
                    ==> is_char_boundary(path.spec_bytes(), path.spec_bytes().len() - (MAX_PATH_LENGTH - 3))
            }),
        ensures
            r@ == file_path_shown(path, match base_dir { Some(b) => Some(b@), None => None }),
    {
        if let Some(base) = base_dir {
            if let Some(rel) = strip_base_exec(path, base) {
                return rel;
            }
        }
        let n = path.as_bytes().len();
        if n > MAX_PATH_LENGTH {
            match file_name(path) {
                Some(f) => {
                    let flen = f.as_str().as_bytes().len();
                    let prefix_len: usize = if flen <= MAX_PATH_LENGTH - 4 { MAX_PATH_LENGTH - (flen + 4) } else { 0 };
                    if prefix_len > 10 {
                        let mut s = owned(".../");
                        push_str(&mut s, f.as_str());
                        s
                    } else {
                        f
                    }
                },
                None => {
                    let (_, tail) = path.split_at(n - (MAX_PATH_LENGTH - 3));
                    proof {
                        broadcast use vstd::utf8::encode_utf8_decode_utf8;
                        assert(decode_utf8(encode_utf8(tail@)) == tail@);
                    }
                    let mut s = owned("...");
                    push_str(&mut s, tail);
                    s
                },
            }
        } else {
            owned(path)
        }
    }

    /// The first `max_depth` frames, escaped, joined with `;`.
    pub fn format_call_stack(stack: &[String], max_depth: usize) -> (r: String)
        ensures
            r@ == call_stack_line(stack@, max_depth as nat),
    {
        let depth = if stack.len() < max_depth { stack.len() } else { max_depth };
        let mut s = String::new();
        let mut i: usize = 0;
        while i < depth
            invariant
                i <= depth,
                depth <= stack@.len(),
                depth == if stack@.len() < max_depth { stack@.len() } else { max_depth as nat },
                s@ == join_seq(stack@.subrange(0, i as int).map_values(|f: String| csv_field(f@, ',')), ';'),
            decreases depth - i,
        {
            let ghost prev = stack@.subrange(0, i as int).map_values(|f: String| csv_field(f@, ','));
            let field = Self::escape_csv_field(stack[i].as_str(), ',');
            if i > 0 {
                push_char(&mut s, ';');
            }
            push_str(&mut s, field.as_str());
            i = i + 1;
            proof {
                let cur = stack@.subrange(0, i as int).map_values(|f: String| csv_field(f@, ','));
                assert(cur.drop_last() =~= prev);
                if i == 1 {
                    assert(s@ =~= cur[0]);
                } else {
                    assert(s@ =~= join_seq(prev, ';').push(';') + cur.last());
                }
            }
        }
        s
    }

    /// A CSV field: quoted when it holds the delimiter, a quote or a line
    /// break, with each quote doubled.
    pub fn escape_csv_field(field: &str, delimiter: char) -> (r: String)
        ensures
            r@ == csv_field(field@, delimiter),
    {
        escape_field(field, delimiter, true)
    }

    /// Digits grouped by three with `,`: `1000000` gives `1,000,000`.
    pub fn format_number(value: u64) -> (r: String)
        ensures
            r@ == group_digits(dec_seq(value as nat)),
    {
        let s = u64_to_string(value);
        let d = chars_of(s.as_str());
        assert(d@.subrange(0, d@.len() as int) =~= d@);
        group_prefix(&d, d.len())
    }

    /// The file name of a module path (the path itself when it has none).
    pub fn format_module_name(path_of_module: &str) -> (r: String)
        ensures
            r@ == file_name_or_path(path_of_module@),
    {
        file_name_or_whole(path_of_module)
    }
}

proof fn lemma_last_byte_at(b: Seq<u8>, x: u8, k: int)
    requires
        -1 <= k < b.len(),
        k >= 0 ==> b[k] == x,
        forall|j: int| k < j < b.len() ==> b[j] != x,
    ensures
        last_byte(b, x) == k,
    decreases b.len(),
{
    if b.len() > 0 && k < b.len() - 1 {
        lemma_last_byte_at(b.drop_last(), x, k);
    }
}

fn group_prefix(d: &Vec<char>, end: usize) -> (r: String)
    requires
        end <= d@.len(),
    ensures
        r@ == group_digits(d@.subrange(0, end as int)),
    decreases end,
{
    if end <= 3 {
        string_of_chars(d, 0, end)
    } else {
        let mut s = group_prefix(d, end - 3);
        push_char(&mut s, ',');
        let t = string_of_chars(d, end - 3, end);
        push_str(&mut s, t.as_str());
        proof {
            let p = d@.subrange(0, end as int);
            assert(p.subrange(0, p.len() - 3) =~= d@.subrange(0, end - 3));
            assert(p.subrange(p.len() - 3, p.len() as int) =~= d@.subrange(end - 3, end as int));
        }
        s
    }
}

/// Whether `v` holds `c`.
fn has_char(v: &Vec<char>, c: char) -> (r: bool)
    ensures
        r == v@.contains(c),
{
    let mut i: usize = 0;
    while i < v.len()
        invariant
            i <= v@.len(),
            forall|k: int| 0 <= k < i ==> v@[k] != c,
        decreases v@.len() - i,
    {
        if v[i] == c {
            return true;
        }
        i = i + 1;
    }
    false
}

/// Quoted (quotes doubled) when the field holds the delimiter, a quote, a
/// line feed or, where `with_cr`, a carriage return.
pub fn escape_field(field: &str, delimiter: char, with_cr: bool) -> (r: String)
    ensures
        r@ == if field@.contains(delimiter) || field@.contains('"') || field@.contains('\n')
            || (with_cr && field@.contains('\r')) {
            seq!['"'] + double_quotes(field@) + seq!['"']
        } else {
            field@
        },
{
    let v = chars_of(field);
    let quote = has_char(&v, delimiter) || has_char(&v, '"') || has_char(&v, '\n') || (with_cr && has_char(&v, '\r'));
    if !quote {
        return owned(field);
    }
    let mut s = String::new();
    push_char(&mut s, '"');
    let mut i: usize = 0;
    while i < v.len()
        invariant
            i <= v@.len(),
            s@ == seq!['"'] + double_quotes(v@.subrange(0, i as int)),
        decreases v@.len() - i,
    {
        let c = v[i];
        push_char(&mut s, c);
        if c == '"' {
            push_char(&mut s, '"');
        }
        proof {
            assert(v@.subrange(0, i + 1).drop_last() =~= v@.subrange(0, i as int));
        }
        i = i + 1;
        assert(s@ =~= seq!['"'] + double_quotes(v@.subrange(0, i as int)));
    }
    push_char(&mut s, '"');
    assert(v@.subrange(0, i as int) =~= v@);
    s
}

fn skip_seps_from(v: &Vec<char>, from: usize) -> (r: usize)
    requires
        from <= v@.len(),
    ensures
        from <= r <= v@.len(),
        skip_seps(v@.subrange(from as int, v@.len() as int)) == v@.subrange(r as int, v@.len() as int),
{
    let mut i = from;
    while i < v.len() && (v[i] == '\\' || v[i] == '/')
        invariant
            from <= i <= v@.len(),
            skip_seps(v@.subrange(from as int, v@.len() as int)) == skip_seps(v@.subrange(i as int, v@.len() as int)),
        decreases v@.len() - i,
    {
        assert(v@.subrange(i as int, v@.len() as int).drop_first() =~= v@.subrange(i + 1, v@.len() as int));
        i = i + 1;
    }
    i
}

/// `path` relative to `base`, as `strip_base` describes it.
pub fn strip_base_exec(path: &str, base: &str) -> (r: Option<String>)
    ensures
        match r {
            Some(s) => strip_base(path@, base@) == Some(s@),
            None => strip_base(path@, base@) is None,
        },
{
    let p = chars_of(path);
    let b = chars_of(base);
    if b.len() == 0 {
        return Some(owned(path));
    }
    let mut end: usize = b.len();
    assert(b@.subrange(0, end as int) =~= b@);
    while end > 0 && (b[end - 1] == '\\' || b[end - 1] == '/')
        invariant
            end <= b@.len(),
            trim_seps(b@) == trim_seps(b@.subrange(0, end as int)),
        decreases end,
    {
        assert(b@.subrange(0, end as int).drop_last() =~= b@.subrange(0, end - 1));
        end = end - 1;
    }
    let ghost t = b@.subrange(0, end as int);
    assert(trim_seps(t) == t);
    if end == 0 {
        if p.len() > 0 && (p[0] == '\\' || p[0] == '/') {
            let k = skip_seps_from(&p, 0);
            assert(p@.subrange(0, p@.len() as int) =~= p@);
            return Some(string_of_chars(&p, k, p.len()));
        }
        return None;
    }
    if end > p.len() {
        return None;
    }
    let mut i: usize = 0;
    while i < end
        invariant
            i <= end,
            end <= p@.len(),
            end <= b@.len(),
            t == b@.subrange(0, end as int),
            trim_seps(b@) == t,
            p@ == path@,
            b@ == base@,
            b@.len() > 0,
            forall|k: int| 0 <= k < i ==> p@[k] == b@[k],
        decreases end - i,
    {
        if p[i] != b[i] {
            assert(p@.subrange(0, end as int)[i as int] != t[i as int]);
            return None;
        }
        i = i + 1;
    }
    assert(p@.subrange(0, end as int) =~= t);
    if end < p.len() && !(p[end] == '\\' || p[end] == '/') {
        return None;
    }
    let k = skip_seps_from(&p, end);
    Some(string_of_chars(&p, k, p.len()))
}

} // verus!
