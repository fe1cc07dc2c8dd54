//! Highscore lists and the text of the highscore file.

use vstd::prelude::*;
use vstd::string::{StrSliceExecFns, StringExecFns};

verus! {

/// Capacity of each highscore list.
pub const NB_HIGHSCORES: usize = 5;

pub open spec fn sorted(s: Seq<u32>) -> bool {
    forall|i: int, j: int| 0 <= i < j < s.len() ==> s[i] <= s[j]
}

/// The first index from `i` on whose entry is strictly less than `value`.
pub open spec fn first_below(s: Seq<u32>, value: u32, i: int) -> Option<int>
    decreases s.len() - i,
{
    if i < 0 || i >= s.len() {
        None
    } else if s[i] < value {
        Some(i)
    } else {
        first_below(s, value, i + 1)
    }
}

/// Relies on slice::sort: the same values, in ascending order.
#[verifier::external_body]
fn sort_ascending(v: &mut Vec<u32>)
    ensures
        final(v)@.to_multiset() == old(v)@.to_multiset(),
        sorted(final(v)@),
{
    v.sort();
}

/// Offers `value` to a highscore list. Under capacity it is always taken:
/// appended, and the list sorted ascending. At capacity it replaces the first
/// entry strictly below it; when there is none the list is unchanged. The
/// result says whether the value was taken.
pub fn update_vec(v: &mut Vec<u32>, value: u32) -> (r: bool)
    ensures
        old(v)@.len() < NB_HIGHSCORES ==> r && final(v)@.len() == old(v)@.len() + 1 && sorted(
            final(v)@,
        ) && final(v)@.to_multiset() == old(v)@.push(value).to_multiset(),
        old(v)@.len() >= NB_HIGHSCORES ==> match first_below(old(v)@, value, 0) {
            Some(i) => r && final(v)@ == old(v)@.update(i, value),
            None => !r && final(v)@ == old(v)@,
        },
{
    if v.len() < NB_HIGHSCORES {
        v.push(value);
        sort_ascending(v);
        proof {
            broadcast use vstd::seq_lib::group_to_multiset_ensures;
            assert(v@.len() == v@.to_multiset().len());
            assert(old(v)@.push(value).len() == old(v)@.push(value).to_multiset().len());
        }
        true
    } else {
        let mut i: usize = 0;
        while i < v.len()
            invariant
                i <= v.len(),
                v@ == old(v)@,
                v@.len() >= NB_HIGHSCORES,
                first_below(v@, value, 0) == first_below(v@, value, i as int),
            decreases v.len() - i,
        {
            if value > v[i] {
                v.set(i, value);
                return true;
            }
            i += 1;
        }
        false
    }
}

/// A value no greater than every entry of a list is not taken at capacity.
pub proof fn lemma_low_value_rejected(s: Seq<u32>, value: u32, i: int)
    requires
        0 <= i,
        forall|j: int| 0 <= j < s.len() ==> value <= #[trigger] s[j],
    ensures
        first_below(s, value, i) is None,
    decreases s.len() - i,
{
    if i < s.len() {
        lemma_low_value_rejected(s, value, i + 1);
    }
}

/// The character of a decimal digit.
pub open spec fn digit_char(d: int) -> char {
    if d == 0 {
        '0'
    } else if d == 1 {
        '1'
    } else if d == 2 {
        '2'
    } else if d == 3 {
        '3'
    } else if d == 4 {
        '4'
    } else if d == 5 {
        '5'
    } else if d == 6 {
        '6'
    } else if d == 7 {
        '7'
    } else if d == 8 {
        '8'
    } else {
        '9'
    }
}

/// The decimal notation of `n`, without leading zeros.
pub open spec fn decimal(n: nat) -> Seq<char>
    decreases n,
{
    if n < 10 {
        seq![digit_char(n as int)]
    } else {
        decimal(n / 10) + seq![digit_char((n % 10) as int)]
    }
}

/// The values in decimal, separated by single spaces.
pub open spec fn joined(s: Seq<u32>) -> Seq<char>
    decreases s.len(),
{
    if s.len() == 0 {
        Seq::empty()
    } else if s.len() == 1 {
        decimal(s[0] as nat)
    } else {
        joined(s.drop_last()) + seq![' '] + decimal(s.last() as nat)
    }
}

/// The text of the highscore file: the scores on one line, the line counts
/// on the next, each line ended by a newline.
pub open spec fn file_text(highscores: Seq<u32>, lines: Seq<u32>) -> Seq<char> {
    joined(highscores) + seq!['\n'] + joined(lines) + seq!['\n']
}

fn digit_str(d: u32) -> (r: &'static str)
    requires
        d < 10,
    ensures
        r@ == seq![digit_char(d as int)],
{
    if d == 0 {
        proof { reveal_strlit("0"); }
        "0"
    } else if d == 1 {
        proof { reveal_strlit("1"); }
        "1"
    } else if d == 2 {
        proof { reveal_strlit("2"); }
        "2"
    } else if d == 3 {
        proof { reveal_strlit("3"); }
        "3"
    } else if d == 4 {
        proof { reveal_strlit("4"); }
        "4"
    } else if d == 5 {
        proof { reveal_strlit("5"); }
        "5"
    } else if d == 6 {
        proof { reveal_strlit("6"); }
        "6"
    } else if d == 7 {
        proof { reveal_strlit("7"); }
        "7"
    } else if d == 8 {
        proof { reveal_strlit("8"); }
        "8"
    } else {
        proof { reveal_strlit("9"); }
        "9"
    }
}

fn push_decimal(out: &mut String, n: u32)
    ensures
        final(out)@ == old(out)@ + decimal(n as nat),
    decreases n,
{
    if n >= 10 {
        push_decimal(out, n / 10);
    }
    out.append(digit_str(n % 10));
    proof {
        if n >= 10 {
            assert(decimal(n as nat) == decimal((n / 10) as nat) + seq![digit_char((n % 10) as int)]);
        }
    }
    assert(final(out)@ =~= old(out)@ + decimal(n as nat));
}

fn push_joined(out: &mut String, slice: &[u32])
    ensures
        final(out)@ == old(out)@ + joined(slice@),
{
    let mut i: usize = 0;
    while i < slice.len()
        invariant
            i <= slice.len(),
            out@ == old(out)@ + joined(slice@.take(i as int)),
        decreases slice.len() - i,
    {
        let ghost prev = out@;
        if i > 0 {
            proof { reveal_strlit(" "); }
            out.append(" ");
        }
        push_decimal(out, slice[i]);
        proof {
            let t = slice@.take(i + 1);
            assert(t.drop_last() =~= slice@.take(i as int));
            assert(t.last() == slice@[i as int]);
            assert(out@ =~= old(out)@ + joined(t));
        }
        i += 1;
    }
    assert(slice@.take(slice.len() as int) =~= slice@);
}

/// The values in decimal, separated by single spaces.
pub fn slice_to_string(slice: &[u32]) -> (r: String)
    ensures
        r@ == joined(slice@),
{
    let mut out = String::new();
    push_joined(&mut out, slice);
    assert(out@ =~= joined(slice@));
    out
}

/// The text that saving the highscores writes to the highscore file.
pub fn save_highscores_and_lines(highscores: &[u32], number_of_lines: &[u32]) -> (r: String)
    ensures
        r@ == file_text(highscores@, number_of_lines@),
{
    let mut out = String::new();
    push_joined(&mut out, highscores);
    proof { reveal_strlit("\n"); }
    out.append("\n");
    push_joined(&mut out, number_of_lines);
    out.append("\n");
    assert(out@ =~= file_text(highscores@, number_of_lines@));
    out
}


/// The value of a decimal digit character.
pub open spec fn digit_of(c: char) -> Option<u32> {
    if c == '0' {
        Some(0)
    } else if c == '1' {
        Some(1)
    } else if c == '2' {
        Some(2)
    } else if c == '3' {
        Some(3)
    } else if c == '4' {
        Some(4)
    } else if c == '5' {
        Some(5)
    } else if c == '6' {
        Some(6)
    } else if c == '7' {
        Some(7)
    } else if c == '8' {
        Some(8)
    } else if c == '9' {
        Some(9)
    } else {
        None
    }
}

fn digit_value(c: char) -> (r: Option<u32>)
    ensures
        r == digit_of(c),
{
    if c == '0' {
        Some(0)
    } else if c == '1' {
        Some(1)
    } else if c == '2' {
        Some(2)
    } else if c == '3' {
        Some(3)
    } else if c == '4' {
        Some(4)
    } else if c == '5' {
        Some(5)
    } else if c == '6' {
        Some(6)
    } else if c == '7' {
        Some(7)
    } else if c == '8' {
        Some(8)
    } else if c == '9' {
        Some(9)
    } else {
        None
    }
}

/// Appends `n` to the list of line `line` (0 or 1); later lines are ignored.
pub open spec fn push_to(lists: (Seq<u32>, Seq<u32>), line: int, n: u32) -> (Seq<u32>, Seq<u32>) {
    if line == 0 {
        (lists.0.push(n), lists.1)
    } else if line == 1 {
        (lists.0, lists.1.push(n))
    } else {
        lists
    }
}

/// The lists with the pending number, if any, stored.
pub open spec fn flushed(lists: (Seq<u32>, Seq<u32>), line: int, cur: Option<u32>) -> (
    Seq<u32>,
    Seq<u32>,
) {
    match cur {
        Some(n) => push_to(lists, line, n),
        None => lists,
    }
}

/// State of the reader: both lists, the current line, and the number being
/// read.
pub type ReadState = ((Seq<u32>, Seq<u32>), int, Option<u32>);

/// One character of the highscore file. Digits extend the current number,
/// which must fit in `u32`; spaces and carriage returns end it; a newline ends
/// it and the line; anything after the second line is ignored; any other
/// character is an error (`None`).
pub open spec fn scan_step(st: ReadState, c: char) -> Option<ReadState> {
    let (lists, line, cur) = st;
    if line >= 2 {
        Some(st)
    } else if digit_of(c) is Some {
        let d = digit_of(c)->Some_0;
        let v = match cur {
            Some(n) => n * 10 + d,
            None => d as int,
        };
        if v > u32::MAX {
            None
        } else {
            Some((lists, line, Some(v as u32)))
        }
    } else if c == ' ' || c == '\r' {
        Some((flushed(lists, line, cur), line, None))
    } else if c == '\n' {
        Some((flushed(lists, line, cur), line + 1, None))
    } else {
        None
    }
}

/// The reader's state after the characters `s`, starting from `st`.
pub open spec fn scan_from(st: ReadState, s: Seq<char>) -> Option<ReadState>
    decreases s.len(),
{
    if s.len() == 0 {
        Some(st)
    } else {
        match scan_from(st, s.drop_last()) {
            None => None,
            Some(t) => scan_step(t, s.last()),
        }
    }
}

/// The reader's state before any character: empty lists, first line.
pub open spec fn scan_start() -> ReadState {
    ((Seq::empty(), Seq::empty()), 0, None)
}

/// The two lists that a highscore file holds, if it is well formed and has
/// at least one newline.
pub open spec fn parsed(s: Seq<char>) -> Option<(Seq<u32>, Seq<u32>)> {
    match scan_from(scan_start(), s) {
        Some(st) => if st.1 >= 1 {
            Some(flushed(st.0, st.1, st.2))
        } else {
            None
        },
        None => None,
    }
}

proof fn lemma_scan_fails_on(s: Seq<char>, k: int)
    requires
        0 <= k <= s.len(),
        scan_from(scan_start(), s.take(k)) is None,
    ensures
        scan_from(scan_start(), s) is None,
    decreases s.len() - k,
{
    if k == s.len() {
        assert(s.take(k) =~= s);
    } else {
        assert(s.take(k + 1).drop_last() =~= s.take(k));
        lemma_scan_fails_on(s, k + 1);
    }
}

fn push_number(h: &mut Vec<u32>, l: &mut Vec<u32>, line: usize, cur: Option<u32>)
    ensures
        (final(h)@, final(l)@) == flushed((old(h)@, old(l)@), line as int, cur),
{
    if let Some(n) = cur {
        if line == 0 {
            h.push(n);
        } else if line == 1 {
            l.push(n);
        }
    }
}

/// Reads the text of a highscore file: the scores, then the line counts.
/// `None` when the text is malformed.
pub fn parse_highscores(content: &str) -> (r: Option<(Vec<u32>, Vec<u32>)>)
    ensures
        match parsed(content@) {
            Some(lists) => r matches Some(v) && v.0@ == lists.0 && v.1@ == lists.1,
            None => r is None,
        },
{
    let mut h: Vec<u32> = Vec::new();
    let mut l: Vec<u32> = Vec::new();
    let mut line: usize = 0;
    let mut cur: Option<u32> = None;
    let len = content.unicode_len();
    let mut i: usize = 0;
    while i < len
        invariant
            len == content@.len(),
            i <= len,
            line <= 2,
            scan_from(scan_start(), content@.take(i as int)) == Some(((h@, l@), line as int, cur)),
        decreases len - i,
    {
        let c = content.get_char(i);
        proof {
            assert(content@.take(i + 1).drop_last() =~= content@.take(i as int));
            assert(content@.take(i + 1).last() == c);
        }
        if line >= 2 {
        } else if let Some(d) = digit_value(c) {
            let v: u64 = match cur {
                Some(n) => n as u64 * 10 + d as u64,
                None => d as u64,
            };
            if v > u32::MAX as u64 {
                proof {
                    lemma_scan_fails_on(content@, i + 1);
                }
                return None;
            }
            cur = Some(v as u32);
        } else if c == ' ' || c == '\r' {
            push_number(&mut h, &mut l, line, cur);
            cur = None;
        } else if c == '\n' {
            push_number(&mut h, &mut l, line, cur);
            cur = None;
            line = line + 1;
        } else {
            proof {
                lemma_scan_fails_on(content@, i + 1);
            }
            return None;
        }
        i += 1;
    }
    proof {
        assert(content@.take(len as int) =~= content@);
    }
    if line >= 1 {
        push_number(&mut h, &mut l, line, cur);
        Some((h, l))
    } else {
        None
    }
}


/// The lists with the values `s` appended to the list of line `line`.
pub open spec fn append_all(lists: (Seq<u32>, Seq<u32>), line: int, s: Seq<u32>) -> (
    Seq<u32>,
    Seq<u32>,
) {
    if line == 0 {
        (lists.0 + s, lists.1)
    } else {
        (lists.0, lists.1 + s)
    }
}

proof fn lemma_scan_append(st: ReadState, a: Seq<char>, b: Seq<char>)
    ensures
        scan_from(st, a + b) == match scan_from(st, a) {
            None => None,
            Some(t) => scan_from(t, b),
        },
    decreases b.len(),
{
    if b.len() == 0 {
        assert(a + b =~= a);
    } else {
        assert((a + b).drop_last() =~= a + b.drop_last());
        assert((a + b).last() == b.last());
        lemma_scan_append(st, a, b.drop_last());
    }
}

proof fn lemma_scan_one(st: ReadState, c: char)
    ensures
        scan_from(st, seq![c]) == scan_step(st, c),
{
    assert(seq![c].drop_last() =~= Seq::<char>::empty());
    assert(scan_from(st, seq![c].drop_last()) == Some(st));
    assert(seq![c].last() == c);
}

proof fn lemma_scan_decimal(lists: (Seq<u32>, Seq<u32>), line: int, n: u32)
    requires
        0 <= line < 2,
    ensures
        scan_from((lists, line, None), decimal(n as nat)) == Some((lists, line, Some(n))),
    decreases n,
{
    let st: ReadState = (lists, line, None);
    let d = decimal(n as nat);
    if n < 10 {
        assert(d.drop_last() =~= Seq::<char>::empty());
        assert(scan_from(st, d.drop_last()) == Some(st));
    } else {
        let q = (n / 10) as u32;
        lemma_scan_decimal(lists, line, q);
        assert(d.drop_last() =~= decimal(q as nat));
        assert(d.last() == digit_char((n % 10) as int));
        assert(q * 10 + n % 10 == n);
    }
}

proof fn lemma_scan_joined(lists: (Seq<u32>, Seq<u32>), line: int, s: Seq<u32>)
    requires
        0 <= line < 2,
    ensures
        scan_from((lists, line, None), joined(s)) matches Some(t) && t.1 == line && flushed(
            t.0,
            t.1,
            t.2,
        ) == append_all(lists, line, s),
    decreases s.len(),
{
    let st: ReadState = (lists, line, None);
    if s.len() == 0 {
        assert(lists.0 + s =~= lists.0);
        assert(lists.1 + s =~= lists.1);
    } else if s.len() == 1 {
        lemma_scan_decimal(lists, line, s[0]);
        assert(lists.0 + s =~= lists.0.push(s[0]));
        assert(lists.1 + s =~= lists.1.push(s[0]));
    } else {
        let dl = s.drop_last();
        lemma_scan_joined(lists, line, dl);
        let t1 = scan_from(st, joined(dl))->Some_0;
        let mid = flushed(t1.0, t1.1, t1.2);
        lemma_scan_append(st, joined(dl), seq![' ']);
        lemma_scan_one(t1, ' ');
        assert(digit_of(' ') is None);
        lemma_scan_append(st, joined(dl) + seq![' '], decimal(s.last() as nat));
        lemma_scan_decimal(mid, line, s.last());
        assert(lists.0 + s =~= (lists.0 + dl).push(s.last()));
        assert(lists.1 + s =~= (lists.1 + dl).push(s.last()));
    }
}

/// Reading back the text that saving writes gives the same two lists.
pub proof fn lemma_saved_text_reads_back(highscores: Seq<u32>, lines: Seq<u32>)
    ensures
        parsed(file_text(highscores, lines)) == Some((highscores, lines)),
{
    let e: Seq<u32> = Seq::empty();
    let st0 = scan_start();
    let a = joined(highscores);
    let b = a + seq!['\n'];
    let c = b + joined(lines);
    lemma_scan_joined((e, e), 0, highscores);
    let t1 = scan_from(st0, a)->Some_0;
    assert(e + highscores =~= highscores);
    lemma_scan_append(st0, a, seq!['\n']);
    lemma_scan_one(t1, '\n');
    assert(digit_of('\n') is None);
    lemma_scan_append(st0, b, joined(lines));
    lemma_scan_joined((highscores, e), 1, lines);
    assert(e + lines =~= lines);
    let t2 = scan_from(((highscores, e), 1int, None::<u32>), joined(lines))->Some_0;
    lemma_scan_append(st0, c, seq!['\n']);
    lemma_scan_one(t2, '\n');
}

} // verus!
