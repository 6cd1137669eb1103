use vstd::prelude::*;

verus! {

broadcast use vstd::string::axiom_spec_iter;

/// Whether `c` is white space, as Unicode's White_Space property has it.
pub open spec fn is_space(c: char) -> bool {
    let u = c as u32;
    ||| 0x09 <= u <= 0x0D
    ||| u == 0x20 || u == 0x85 || u == 0xA0 || u == 0x1680
    ||| 0x2000 <= u <= 0x200A
    ||| u == 0x2028 || u == 0x2029 || u == 0x202F || u == 0x205F || u == 0x3000
}

/// The words of `s`: its longest runs of characters that are not white space.
pub open spec fn words(s: Seq<char>) -> Seq<Seq<char>>
    decreases s.len(),
{
    if s.len() == 0 {
        Seq::empty()
    } else {
        let w = words(s.drop_last());
        let c = s.last();
        if is_space(c) {
            w
        } else if s.len() >= 2 && !is_space(s[s.len() - 2]) {
            w.update(w.len() - 1, w.last().push(c))
        } else {
            w.push(seq![c])
        }
    }
}

/// The lines of `s`: the pieces between its newlines (at least one).
pub open spec fn lines(s: Seq<char>) -> Seq<Seq<char>>
    decreases s.len(),
{
    if s.len() == 0 {
        seq![Seq::empty()]
    } else {
        let l = lines(s.drop_last());
        if s.last() == '\n' {
            l.push(Seq::empty())
        } else {
            l.update(l.len() - 1, l.last().push(s.last()))
        }
    }
}

/// Whether `c` is a decimal digit.
pub open spec fn is_digit(c: char) -> bool {
    '0' <= c <= '9'
}

/// The number the digits `d` write in decimal.
pub open spec fn digits_value(d: Seq<char>) -> nat
    decreases d.len(),
{
    if d.len() == 0 {
        0
    } else {
        digits_value(d.drop_last()) * 10 + ((d.last() as u32) - ('0' as u32)) as nat
    }
}

/// The digits of `w` after an optional plus sign.
pub open spec fn unsigned_part(w: Seq<char>) -> Seq<char> {
    if w.len() > 0 && w[0] == '+' { w.drop_first() } else { w }
}

/// Whether every character of `d` is a decimal digit.
pub open spec fn all_digits(d: Seq<char>) -> bool {
    forall|i: int| 0 <= i < d.len() ==> is_digit(#[trigger] d[i])
}

/// The `u32` that `w` writes: decimal digits, at least one, after an
/// optional plus sign, with a value that fits.
pub open spec fn number(w: Seq<char>) -> Option<u32> {
    let d = unsigned_part(w);
    if d.len() > 0 && all_digits(d) && digits_value(d) <= u32::MAX {
        Some(digits_value(d) as u32)
    } else {
        None
    }
}

/// The words `ws` joined by single spaces.
pub open spec fn joined(ws: Seq<Seq<char>>) -> Seq<char>
    decreases ws.len(),
{
    if ws.len() == 0 {
        Seq::empty()
    } else if ws.len() == 1 {
        ws[0]
    } else {
        joined(ws.drop_last()) + seq![' '] + ws.last()
    }
}

/// The entry a line of the high-score file holds: its last word is the
/// score and the words before it, at least one, the name.
pub open spec fn line_entry(line: Seq<char>) -> Option<(Seq<char>, u32)> {
    let ws = words(line);
    if ws.len() >= 2 && number(ws.last()) is Some {
        Some((joined(ws.drop_last()), number(ws.last())->0))
    } else {
        None
    }
}

/// The entries of the lines `ls` that hold one, in order.
pub open spec fn entries(ls: Seq<Seq<char>>) -> Seq<(Seq<char>, u32)>
    decreases ls.len(),
{
    if ls.len() == 0 {
        Seq::empty()
    } else {
        let e = entries(ls.drop_last());
        match line_entry(ls.last()) {
            Some(x) => e.push(x),
            None => e,
        }
    }
}

/// The high scores the text `t` of a high-score file holds.
pub open spec fn score_entries(t: Seq<char>) -> Seq<(Seq<char>, u32)> {
    entries(lines(t))
}

/// Whether the list `r` reads as the entries `e`.
pub open spec fn reads_as(r: Seq<(String, u32)>, e: Seq<(Seq<char>, u32)>) -> bool {
    r.len() == e.len() && forall|i: int| 0 <= i < r.len() ==> (#[trigger] r[i]).0@ == e[i].0 && r[i].1 == e[i].1
}

/// The decimal digits of `n`.
pub open spec fn decimal(n: nat) -> Seq<char>
    decreases n,
{
    if n < 10 {
        seq![digit_char(n)]
    } else {
        decimal(n / 10).push(digit_char(n % 10))
    }
}

/// The digit for `d`, below ten.
pub open spec fn digit_char(d: nat) -> char {
    ((d + ('0' as u32)) as u32) as char
}

/// The line of the high-score file for `e`: name, space, score.
pub open spec fn score_line(e: (Seq<char>, u32)) -> Seq<char> {
    e.0 + seq![' '] + decimal(e.1 as nat)
}

/// The text of a high-score file for the entries `l`: their lines, joined
/// by newlines.
pub open spec fn score_text(l: Seq<(Seq<char>, u32)>) -> Seq<char>
    decreases l.len(),
{
    if l.len() == 0 {
        Seq::empty()
    } else if l.len() == 1 {
        score_line(l[0])
    } else {
        score_text(l.drop_last()) + seq!['\n'] + score_line(l.last())
    }
}

/// `String::push`: `c` is added at the end.
#[verifier::external_body]
fn push_char(s: &mut String, c: char)
    ensures
        final(s)@ == old(s)@.push(c),
{
    s.push(c)
}

/// The characters of `s`, in order.
fn chars_of(s: &str) -> (r: Vec<char>)
    ensures
        r@ == s@,
{
    let mut out: Vec<char> = Vec::new();
    for c in it: s.chars()
        invariant
            out@ == it.seq().take(it.index() as int),
            it.seq() == s@,
    {
        out.push(c);
        assert(out@ =~= it.seq().take(it.index() + 1));
    }
    assert(out@ =~= s@);
    out
}

fn is_space_exec(c: char) -> (r: bool)
    ensures
        r == is_space(c),
{
    let u = c as u32;
    (0x09 <= u && u <= 0x0D) || u == 0x20 || u == 0x85 || u == 0xA0 || u == 0x1680 || (0x2000 <= u && u <= 0x200A) || u
        == 0x2028 || u == 0x2029 || u == 0x202F || u == 0x205F || u == 0x3000
}

/// Whether the words `ws` read as `w`.
pub open spec fn words_read(ws: Seq<Vec<char>>, w: Seq<Seq<char>>) -> bool {
    ws.len() == w.len() && forall|k: int| 0 <= k < ws.len() ==> (#[trigger] ws[k])@ == w[k]
}

proof fn lemma_words_nonempty(s: Seq<char>)
    requires
        s.len() >= 1,
        !is_space(s.last()),
    ensures
        words(s).len() >= 1,
    decreases s.len(),
{
    if s.len() >= 2 && !is_space(s[s.len() - 2]) {
        assert(s.drop_last().last() == s[s.len() - 2]);
        lemma_words_nonempty(s.drop_last());
    }
}

fn split_words(line: &Vec<char>) -> (r: Vec<Vec<char>>)
    ensures
        words_read(r@, words(line@)),
{
    let mut ws: Vec<Vec<char>> = Vec::new();
    let mut i: usize = 0;
    while i < line.len()
        invariant
            i <= line@.len(),
            words_read(ws@, words(line@.take(i as int))),
        decreases line@.len() - i,
    {
        let c = line[i];
        let ghost pre = line@.take(i as int);
        let ghost now = line@.take(i + 1);
        assert(now.drop_last() =~= pre);
        assert(now.last() == c);
        if !is_space_exec(c) {
            if i >= 1 && !is_space_exec(line[i - 1]) {
                assert(now[now.len() - 2] == line@[i - 1]);
                proof {
                    assert(pre.last() == line@[i - 1]);
                    lemma_words_nonempty(pre);
                }
                let ghost w0 = ws@;
                let mut last = ws.pop().unwrap();
                last.push(c);
                ws.push(last);
                proof {
                    let wn = words(now);
                    let wp = words(pre);
                    assert(wn == wp.update(wp.len() - 1, wp.last().push(c)));
                    assert forall|k: int| 0 <= k < ws@.len() implies (#[trigger] ws@[k])@ == wn[k] by {
                        if k < ws@.len() - 1 {
                            assert(ws@[k] == w0[k]);
                        }
                    }
                }
            } else {
                proof {
                    if i >= 1 {
                        assert(now[now.len() - 2] == line@[i - 1]);
                    }
                }
                let mut w: Vec<char> = Vec::new();
                w.push(c);
                assert(w@ =~= seq![c]);
                let ghost w0 = ws@;
                ws.push(w);
                proof {
                    assert forall|k: int| 0 <= k < ws@.len() implies (#[trigger] ws@[k])@ == words(now)[k] by {
                        if k < ws@.len() - 1 {
                            assert(ws@[k] == w0[k]);
                        }
                    }
                }
            }
        }
        i = i + 1;
    }
    assert(line@.take(i as int) =~= line@);
    ws
}

/// The `u32` that `w` writes; see `number`.
fn parse_number(w: &Vec<char>) -> (r: Option<u32>)
    ensures
        r == number(w@),
{
    let start: usize = if w.len() > 0 && w[0] == '+' { 1 } else { 0 };
    let ghost d = unsigned_part(w@);
    assert(d =~= w@.subrange(start as int, w@.len() as int));
    if start >= w.len() {
        assert(d.len() == 0);
        return None;
    }
    let mut acc: u64 = 0;
    let mut over = false;
    let mut i: usize = start;
    while i < w.len()
        invariant
            start <= i <= w@.len(),
            d == w@.subrange(start as int, w@.len() as int),
            d == unsigned_part(w@),
            forall|k: int| 0 <= k < i - start ==> is_digit(#[trigger] d[k]),
            !over ==> acc == digits_value(d.take(i - start)) && acc <= u32::MAX,
            over ==> digits_value(d.take(i - start)) > u32::MAX,
        decreases w@.len() - i,
    {
        let c = w[i];
        if !('0' <= c && c <= '9') {
            assert(!is_digit(d[i - start]));
            assert(!all_digits(d));
                return None;
        }
        let ghost pre = d.take(i - start);
        let ghost now = d.take(i - start + 1);
        assert(now.drop_last() =~= pre);
        assert(now.last() == c);
        let digit = (c as u32 - '0' as u32) as u64;
        if !over {
            let next = acc * 10 + digit;
            if next > 0xFFFF_FFFF {
                over = true;
            } else {
                acc = next;
            }
        }
        i = i + 1;
    }
    assert(d.take(i - start) =~= d);
    assert(d.len() > 0);
    if over {
        assert(digits_value(d) > u32::MAX);
        None
    } else {
        assert(all_digits(d));
        assert(acc == digits_value(d));
        Some(acc as u32)
    }
}

/// Appends the words `ws`, joined by single spaces, to `s`.
fn push_joined(s: &mut String, ws: &Vec<Vec<char>>, n: usize)
    requires
        n <= ws@.len(),
    ensures
        final(s)@ == old(s)@ + joined(ws@.take(n as int).map_values(|v: Vec<char>| v@)),
{
    let ghost base = s@;
    let ghost all = ws@.map_values(|v: Vec<char>| v@);
    let mut k: usize = 0;
    while k < n
        invariant
            n <= ws@.len(),
            k <= n,
            all == ws@.map_values(|v: Vec<char>| v@),
            s@ == base + joined(all.take(k as int)),
        decreases n - k,
    {
        let ghost before = s@;
        if k > 0 {
            push_char(s, ' ');
        }
        let ghost mid = s@;
        let w = &ws[k];
        let mut j: usize = 0;
        while j < w.len()
            invariant
                j <= w@.len(),
                s@ == mid + w@.take(j as int),
            decreases w@.len() - j,
        {
            push_char(s, w[j]);
            j = j + 1;
            assert(s@ =~= mid + w@.take(j as int));
        }
        proof {
            assert(w@.take(j as int) =~= w@);
            let t1 = all.take(k + 1);
            assert(t1.drop_last() =~= all.take(k as int));
            assert(t1.last() == w@);
            if k == 0 {
                assert(t1.len() == 1);
                assert(s@ =~= base + joined(t1));
            } else {
                assert(s@ =~= base + joined(t1));
            }
        }
        k = k + 1;
    }
    proof {
        assert(ws@.take(n as int).map_values(|v: Vec<char>| v@) =~= all.take(n as int));
        if n == 0 {
            assert(s@ =~= base);
        }
    }
}

/// The entry that `line` holds, if any; see `line_entry`.
fn entry_of(line: &Vec<char>) -> (r: Option<(String, u32)>)
    ensures
        match line_entry(line@) {
            Some(e) => r matches Some(x) && x.0@ == e.0 && x.1 == e.1,
            None => r is None,
        },
{
    let ws = split_words(line);
    let ghost w = words(line@);
    let ghost all = ws@.map_values(|v: Vec<char>| v@);
    assert(all =~= w);
    if ws.len() < 2 {
        return None;
    }
    let last = ws.len() - 1;
    match parse_number(&ws[last]) {
        Some(v) => {
            let mut name = String::new();
            push_joined(&mut name, &ws, last);
            proof {
                assert(all.take(last as int) =~= w.drop_last());
                assert(ws@.take(last as int).map_values(|v: Vec<char>| v@) =~= all.take(last as int));
                assert(name@ =~= joined(w.drop_last()));
            }
            Some((name, v))
        },
        None => None,
    }
}

/// The high scores that the text `t` of a high-score file holds: on each
/// line, the last word is the score (digits after an optional plus sign)
/// and the words before it the name, joined by single spaces; lines that
/// do not read so are skipped. See `score_entries`.
pub fn parse_high_scores(t: &str) -> (r: Vec<(String, u32)>)
    ensures
        reads_as(r@, score_entries(t@)),
{
    let text = chars_of(t);
    let mut out: Vec<(String, u32)> = Vec::new();
    let mut line: Vec<char> = Vec::new();
    let mut i: usize = 0;
    while i < text.len()
        invariant
            i <= text@.len(),
            lines(text@.take(i as int)).len() >= 1,
            line@ == lines(text@.take(i as int)).last(),
            reads_as(out@, entries(lines(text@.take(i as int)).drop_last())),
        decreases text@.len() - i,
    {
        let c = text[i];
        let ghost pre = text@.take(i as int);
        let ghost now = text@.take(i + 1);
        assert(now.drop_last() =~= pre);
        assert(now.last() == c);
        let ghost lp = lines(pre);
        if c == '\n' {
            let ghost o0 = out@;
            match entry_of(&line) {
                Some(e) => {
                    out.push(e);
                },
                None => {},
            }
            line = Vec::new();
            proof {
                assert(lines(now).drop_last() =~= lp);
                assert(lp =~= lp.drop_last().push(lp.last()));
                assert(entries(lp) == (match line_entry(lp.last()) {
                    Some(x) => entries(lp.drop_last()).push(x),
                    None => entries(lp.drop_last()),
                }));
                assert(line@ =~= lines(now).last());
                assert forall|k: int| 0 <= k < out@.len() implies (#[trigger] out@[k]).0@ == entries(lines(now).drop_last())[k].0
                    && out@[k].1 == entries(lines(now).drop_last())[k].1 by {
                    if k < o0.len() {
                        assert(out@[k] == o0[k]);
                    }
                }
            }
        } else {
            line.push(c);
            proof {
                assert(lines(now) == lp.update(lp.len() - 1, lp.last().push(c)));
                assert(lines(now).drop_last() =~= lp.drop_last());
            }
        }
        i = i + 1;
    }
    proof {
        assert(text@.take(i as int) =~= t@);
    }
    let ghost lt = lines(t@);
    let ghost o0 = out@;
    match entry_of(&line) {
        Some(e) => {
            out.push(e);
        },
        None => {},
    }
    proof {
        assert(lt =~= lt.drop_last().push(lt.last()));
        assert forall|k: int| 0 <= k < out@.len() implies (#[trigger] out@[k]).0@ == score_entries(t@)[k].0 && out@[k].1
            == score_entries(t@)[k].1 by {
            if k < o0.len() {
                assert(out@[k] == o0[k]);
            }
        }
    }
    out
}

/// Appends the decimal digits of `n` to `s`.
fn push_decimal(s: &mut String, n: u32)
    ensures
        final(s)@ == old(s)@ + decimal(n as nat),
    decreases n,
{
    if n >= 10 {
        push_decimal(s, n / 10);
    }
    let d = n % 10;
    let c = match d {
        0 => '0',
        1 => '1',
        2 => '2',
        3 => '3',
        4 => '4',
        5 => '5',
        6 => '6',
        7 => '7',
        8 => '8',
        _ => '9',
    };
    assert(c == digit_char(d as nat));
    push_char(s, c);
    assert(s@ =~= old(s)@ + decimal(n as nat));
}

/// The text of a high-score file for `l`: a line "name score" for each
/// entry, joined by newlines. See `score_text`.
pub fn format_high_scores(l: &Vec<(String, u32)>) -> (r: String)
    ensures
        r@ == score_text(l@.map_values(|e: (String, u32)| (e.0@, e.1))),
{
    let ghost m = l@.map_values(|e: (String, u32)| (e.0@, e.1));
    let mut out = String::new();
    let mut i: usize = 0;
    while i < l.len()
        invariant
            i <= l@.len(),
            m == l@.map_values(|e: (String, u32)| (e.0@, e.1)),
            out@ == score_text(m.take(i as int)),
        decreases l@.len() - i,
    {
        if i > 0 {
            push_char(&mut out, '\n');
        }
        out.append(l[i].0.as_str());
        out.append(" ");
        proof {
            reveal_strlit(" ");
        }
        push_decimal(&mut out, l[i].1);
        proof {
            let t1 = m.take(i + 1);
            assert(t1.drop_last() =~= m.take(i as int));
            assert(t1.last() == (l@[i as int].0@, l@[i as int].1));
            assert(out@ =~= score_text(t1));
        }
        i = i + 1;
    }
    assert(m.take(i as int) =~= m);
    out
}

/// A name that a high-score file keeps as it is: not empty, no newline,
/// and its words joined by single spaces.
pub open spec fn plain_name(n: Seq<char>) -> bool {
    n.len() > 0 && !n.contains('\n') && joined(words(n)) == n
}

proof fn lemma_words_split(a: Seq<char>, sp: char, b: Seq<char>)
    requires
        is_space(sp),
    ensures
        words(a + seq![sp] + b) == words(a) + words(b),
    decreases b.len(),
{
    let s = a + seq![sp] + b;
    if b.len() == 0 {
        assert(s.drop_last() =~= a);
        assert(words(b) =~= Seq::<Seq<char>>::empty());
        assert(words(a) + words(b) =~= words(a));
    } else {
        let b1 = b.drop_last();
        let c = b.last();
        let s1 = a + seq![sp] + b1;
        assert(s.drop_last() =~= s1);
        assert(s.last() == c);
        lemma_words_split(a, sp, b1);
        if is_space(c) {
        } else if b1.len() == 0 {
            assert(s[s.len() - 2] == sp);
            assert(words(b) == words(b1).push(seq![c]));
            assert(words(s) =~= words(a) + words(b));
        } else if !is_space(b1.last()) {
            assert(s[s.len() - 2] == b1.last());
            assert(b[b.len() - 2] == b1.last());
            lemma_words_nonempty(b1);
            let wa = words(a);
            let wb1 = words(b1);
            assert(words(s) =~= wa + wb1.update(wb1.len() - 1, wb1.last().push(c)));
        } else {
            assert(s[s.len() - 2] == b1.last());
            assert(b[b.len() - 2] == b1.last());
            assert(words(s) =~= words(a) + words(b));
        }
    }
}

proof fn lemma_words_single(d: Seq<char>)
    requires
        d.len() > 0,
        forall|i: int| 0 <= i < d.len() ==> !is_space(#[trigger] d[i]),
    ensures
        words(d) == seq![d],
    decreases d.len(),
{
    let d1 = d.drop_last();
    if d1.len() == 0 {
        assert(words(d1) =~= Seq::<Seq<char>>::empty());
        assert(d =~= seq![d.last()]);
    } else {
        assert forall|i: int| 0 <= i < d1.len() implies !is_space(#[trigger] d1[i]) by {
            assert(d1[i] == d[i]);
        }
        lemma_words_single(d1);
        assert(d[d.len() - 2] == d1.last());
        assert(!is_space(d[d.len() - 2]));
        assert(d1.push(d.last()) =~= d);
    }
}

proof fn lemma_decimal(n: nat)
    ensures
        decimal(n).len() > 0,
        all_digits(decimal(n)),
        decimal(n)[0] != '+',
        digits_value(decimal(n)) == n,
        forall|i: int| 0 <= i < decimal(n).len() ==> !is_space(#[trigger] decimal(n)[i]) && decimal(n)[i] != '\n',
    decreases n,
{
    if n < 10 {
        assert(digits_value(decimal(n)) == digits_value(Seq::<char>::empty()) * 10 + n) by {
            assert(decimal(n).drop_last() =~= Seq::<char>::empty());
        }
    } else {
        lemma_decimal(n / 10);
        let d = decimal(n);
        assert(d.drop_last() =~= decimal(n / 10));
        assert(d[0] == decimal(n / 10)[0]);
        assert forall|i: int| 0 <= i < d.len() implies is_digit(#[trigger] d[i]) && !is_space(d[i]) && d[i] != '\n' by {
            if i < d.len() - 1 {
                assert(d[i] == decimal(n / 10)[i]);
            }
        }
    }
}

proof fn lemma_lines_nonempty(s: Seq<char>)
    ensures
        lines(s).len() >= 1,
    decreases s.len(),
{
    if s.len() > 0 {
        lemma_lines_nonempty(s.drop_last());
    }
}

proof fn lemma_lines_split(a: Seq<char>, b: Seq<char>)
    ensures
        lines(a + seq!['\n'] + b) == lines(a) + lines(b),
    decreases b.len(),
{
    let s = a + seq!['\n'] + b;
    lemma_lines_nonempty(a);
    if b.len() == 0 {
        assert(s.drop_last() =~= a);
        assert(lines(a) + lines(b) =~= lines(a).push(Seq::empty()));
    } else {
        let b1 = b.drop_last();
        let c = b.last();
        let s1 = a + seq!['\n'] + b1;
        assert(s.drop_last() =~= s1);
        assert(s.last() == c);
        lemma_lines_split(a, b1);
        lemma_lines_nonempty(b1);
        let la = lines(a);
        let lb1 = lines(b1);
        if c == '\n' {
            assert(lines(s) =~= la + lb1.push(Seq::empty()));
        } else {
            assert(lines(s) =~= la + lb1.update(lb1.len() - 1, lb1.last().push(c)));
        }
    }
}

proof fn lemma_lines_single(l: Seq<char>)
    requires
        !l.contains('\n'),
    ensures
        lines(l) == seq![l],
    decreases l.len(),
{
    if l.len() > 0 {
        let l1 = l.drop_last();
        assert(!l1.contains('\n')) by {
            if l1.contains('\n') {
                let k = choose|k: int| 0 <= k < l1.len() && l1[k] == '\n';
                assert(l[k] == '\n');
            }
        }
        lemma_lines_single(l1);
        assert(l.last() != '\n') by {
            assert(l[l.len() - 1] == l.last());
        }
        assert(l1.push(l.last()) =~= l);
        assert(lines(l) =~= seq![l]);
    } else {
        assert(l =~= Seq::<char>::empty());
        assert(lines(l) =~= seq![l]);
    }
}

proof fn lemma_entries_append(l1: Seq<Seq<char>>, l2: Seq<Seq<char>>)
    ensures
        entries(l1 + l2) == entries(l1) + entries(l2),
    decreases l2.len(),
{
    if l2.len() == 0 {
        assert(l1 + l2 =~= l1);
        assert(entries(l1) + entries(l2) =~= entries(l1));
    } else {
        assert((l1 + l2).drop_last() =~= l1 + l2.drop_last());
        lemma_entries_append(l1, l2.drop_last());
        match line_entry(l2.last()) {
            Some(x) => {
                assert(entries(l1 + l2) =~= entries(l1) + entries(l2));
            },
            None => {},
        }
    }
}

proof fn lemma_line_reads_back(e: (Seq<char>, u32))
    requires
        plain_name(e.0),
    ensures
        line_entry(score_line(e)) == Some(e),
        !score_line(e).contains('\n'),
{
    let d = decimal(e.1 as nat);
    lemma_decimal(e.1 as nat);
    lemma_words_split(e.0, ' ', d);
    lemma_words_single(d);
    let ws = words(score_line(e));
    assert(ws =~= words(e.0) + seq![d]);
    assert(ws.drop_last() =~= words(e.0));
    assert(unsigned_part(d) == d);
    assert(number(d) == Some(e.1));
    assert(!score_line(e).contains('\n')) by {
        if score_line(e).contains('\n') {
            let k = choose|k: int| 0 <= k < score_line(e).len() && score_line(e)[k] == '\n';
            if k < e.0.len() {
                assert(e.0[k] == '\n');
            } else if k > e.0.len() {
                assert(d[k - e.0.len() - 1] == '\n');
            }
        }
    }
}

proof fn lemma_entries_one(e: (Seq<char>, u32))
    requires
        line_entry(score_line(e)) == Some(e),
    ensures
        entries(seq![score_line(e)]) == seq![e],
{
    let one = seq![score_line(e)];
    assert(one.drop_last() =~= Seq::<Seq<char>>::empty());
    assert(one.last() == score_line(e));
    assert(entries(one) == entries(one.drop_last()).push(e));
    assert(entries(Seq::<Seq<char>>::empty()) == Seq::<(Seq<char>, u32)>::empty());
    assert(entries(one) =~= seq![e]);
}

/// What a high-score file is written with reads back as it was: for entries
/// whose names are plain (see `plain_name`), reading the text that
/// `format_high_scores` writes gives the same entries.
pub proof fn lemma_scores_read_back(l: Seq<(Seq<char>, u32)>)
    requires
        forall|i: int| 0 <= i < l.len() ==> plain_name(#[trigger] l[i].0),
    ensures
        score_entries(score_text(l)) == l,
    decreases l.len(),
{
    if l.len() == 0 {
        assert(lines(Seq::<char>::empty()) =~= seq![Seq::<char>::empty()]);
        assert(words(Seq::<char>::empty()) =~= Seq::<Seq<char>>::empty());
        assert(seq![Seq::<char>::empty()].drop_last() =~= Seq::<Seq<char>>::empty());
        assert(line_entry(Seq::<char>::empty()) is None);
        assert(entries(seq![Seq::<char>::empty()]) == entries(Seq::<Seq<char>>::empty()));
    } else if l.len() == 1 {
        lemma_line_reads_back(l[0]);
        lemma_lines_single(score_line(l[0]));
        lemma_entries_one(l[0]);
        assert(l =~= seq![l[0]]);
    } else {
        let l1 = l.drop_last();
        let e = l.last();
        assert forall|i: int| 0 <= i < l1.len() implies plain_name(#[trigger] l1[i].0) by {
            assert(l1[i] == l[i]);
        }
        lemma_scores_read_back(l1);
        lemma_line_reads_back(e);
        lemma_lines_single(score_line(e));
        lemma_lines_split(score_text(l1), score_line(e));
        lemma_entries_append(lines(score_text(l1)), seq![score_line(e)]);
        lemma_entries_one(e);
        assert(l1.push(e) =~= l);
        assert(l1 + seq![e] =~= l);
    }
}

} // verus!
