//! The persistence wire format for the task list: a bracketed sequence of
//! records, each with the keys `id`, `title`, `description` and `priority`,
//! the priority written as a single-key tagged object whose key is the
//! variant name and whose value is the label. Serialization and parsing are
//! both defined here, together with the proof that parsing inverts
//! serialization. A text that is not exactly a serialized task list counts
//! as malformed, and loading a malformed text yields the empty sequence.

use vstd::prelude::*;

use crate::task::{spec_label, Priority, PriorityView, TaskView, ToDoItem};

verus! {

/// Relies on `String::push` from std: it appends the given character to the
/// end of the string.
pub assume_specification[ String::push ](s: &mut String, c: char)
    ensures
        final(s)@ == old(s)@.push(c),
;

// ---------------------------------------------------------------------------
// Decimal digits
// ---------------------------------------------------------------------------

/// Whether `c` is a decimal digit.
pub open spec fn is_digit(c: char) -> bool {
    c == '0' || c == '1' || c == '2' || c == '3' || c == '4' || c == '5' || c == '6' || c == '7'
        || c == '8' || c == '9'
}

/// The value of a decimal digit character.
pub open spec fn digit_val(c: char) -> nat
    recommends
        is_digit(c),
{
    if c == '0' {
        0
    } else if c == '1' {
        1
    } else if c == '2' {
        2
    } else if c == '3' {
        3
    } else if c == '4' {
        4
    } else if c == '5' {
        5
    } else if c == '6' {
        6
    } else if c == '7' {
        7
    } else if c == '8' {
        8
    } else {
        9
    }
}

/// The character for a decimal digit value.
pub open spec fn digit_char(d: nat) -> char
    recommends
        d < 10,
{
    if d == 0 {
        '0'
    } else if d == 1 {
        '1'
    } else if d == 2 {
        '2'
    } else if d == 3 {
        '3'
    } else if d == 4 {
        '4'
    } else if d == 5 {
        '5'
    } else if d == 6 {
        '6'
    } else if d == 7 {
        '7'
    } else if d == 8 {
        '8'
    } else {
        '9'
    }
}

/// Every character of `s` is a decimal digit.
pub open spec fn all_digits(s: Seq<char>) -> bool {
    forall|i: int| 0 <= i < s.len() ==> is_digit(s[i])
}

/// The number a sequence of decimal digits denotes, most significant first.
pub open spec fn digits_value(s: Seq<char>) -> nat
    decreases s.len(),
{
    if s.len() == 0 {
        0
    } else {
        digits_value(s.drop_last()) * 10 + digit_val(s.last())
    }
}

/// The canonical decimal rendering of `n`: no sign, no leading zero except
/// for zero itself.
pub open spec fn spec_digits_of(n: nat) -> Seq<char>
    decreases n,
{
    if n < 10 {
        seq![digit_char(n)]
    } else {
        spec_digits_of(n / 10).push(digit_char(n % 10))
    }
}

/// The canonical rendering consists of digits and denotes `n`.
pub proof fn lemma_digits_of(n: nat)
    ensures
        spec_digits_of(n).len() >= 1,
        all_digits(spec_digits_of(n)),
        digits_value(spec_digits_of(n)) == n,
    decreases n,
{
    if n < 10 {
        let s = seq![digit_char(n)];
        assert(s.drop_last() =~= Seq::<char>::empty());
        assert(digits_value(Seq::<char>::empty()) == 0);
        assert(digits_value(s) == digits_value(s.drop_last()) * 10 + digit_val(s.last()));
        assert(digits_value(s) == digit_val(digit_char(n)));
    } else {
        lemma_digits_of(n / 10);
        let s = spec_digits_of(n / 10);
        let full = s.push(digit_char(n % 10));
        assert(full.drop_last() =~= s);
        assert(full.last() == digit_char(n % 10));
        vstd::arithmetic::div_mod::lemma_fundamental_div_mod(n as int, 10);
        assert(digit_val(digit_char(n % 10)) == n % 10);
        assert(digits_value(full) == (n / 10) * 10 + n % 10);
        assert(forall|i: int|
            0 <= i < full.len() ==> is_digit(#[trigger] full[i])) by {
            assert(forall|i: int| 0 <= i < s.len() ==> is_digit(#[trigger] s[i]));
        }
    }
}

/// A digit prefix never denotes more than the whole digit run.
pub proof fn lemma_digits_value_take_le(s: Seq<char>, m: int)
    requires
        0 <= m <= s.len(),
    ensures
        digits_value(s.take(m)) <= digits_value(s),
    decreases s.len(),
{
    if m == s.len() {
        assert(s.take(m) =~= s);
    } else {
        assert(s.drop_last().take(m) =~= s.take(m));
        lemma_digits_value_take_le(s.drop_last(), m);
        assert(digits_value(s.drop_last()) * 10 >= digits_value(s.drop_last()) * 1);
    }
}

/// Extending a digit run by one digit multiplies its value by ten and adds
/// the digit.
pub proof fn lemma_digits_value_snoc(s: Seq<char>, c: char)
    ensures
        digits_value(s.push(c)) == digits_value(s) * 10 + digit_val(c),
{
    assert(s.push(c).drop_last() =~= s);
    assert(s.push(c).last() == c);
}

// ---------------------------------------------------------------------------
// String escaping
// ---------------------------------------------------------------------------

/// How one character appears inside a quoted string: quote and backslash
/// get a backslash before them, everything else stands for itself.
pub open spec fn esc_char(c: char) -> Seq<char> {
    if c == '"' {
        seq!['\\', '"']
    } else if c == '\\' {
        seq!['\\', '\\']
    } else {
        seq![c]
    }
}

/// The escaped form of a whole string.
pub open spec fn spec_escape(s: Seq<char>) -> Seq<char>
    decreases s.len(),
{
    if s.len() == 0 {
        Seq::<char>::empty()
    } else {
        esc_char(s[0]) + spec_escape(s.drop_first())
    }
}

/// Escaping commutes with appending one character at the end.
pub proof fn lemma_escape_snoc(s: Seq<char>, c: char)
    ensures
        spec_escape(s.push(c)) == spec_escape(s) + esc_char(c),
    decreases s.len(),
{
    if s.len() == 0 {
        assert(s.push(c)[0] == c);
        assert(s.push(c).drop_first() =~= Seq::<char>::empty());
        assert(spec_escape(Seq::<char>::empty()) == Seq::<char>::empty());
        assert(spec_escape(s.push(c)) == esc_char(c) + Seq::<char>::empty());
        assert(esc_char(c) + Seq::<char>::empty() =~= spec_escape(s) + esc_char(c));
    } else {
        assert(s.push(c).drop_first() =~= s.drop_first().push(c));
        lemma_escape_snoc(s.drop_first(), c);
        assert(s.push(c)[0] == s[0]);
        assert(spec_escape(s.push(c)) == esc_char(s[0]) + (spec_escape(s.drop_first())
            + esc_char(c)));
        assert(esc_char(s[0]) + (spec_escape(s.drop_first()) + esc_char(c)) =~= (esc_char(s[0])
            + spec_escape(s.drop_first())) + esc_char(c));
    }
}

// ---------------------------------------------------------------------------
// The serialized shape
// ---------------------------------------------------------------------------

/// The opening of a record up to the value of its `id` key.
pub open spec fn lit_obj() -> Seq<char> {
    "{\"id\":"@
}

/// From the comma after the id through the opening quote of the title.
pub open spec fn lit_title() -> Seq<char> {
    ",\"title\":\""@
}

/// From the comma after the title through the opening quote of the
/// description.
pub open spec fn lit_desc() -> Seq<char> {
    ",\"description\":\""@
}

/// From the comma after the description through the opening brace and quote
/// of the tagged priority object.
pub open spec fn lit_prio() -> Seq<char> {
    ",\"priority\":{\""@
}

/// The critical tag: variant name, closing quote, colon, opening quote of
/// the label.
pub open spec fn lit_crit() -> Seq<char> {
    "critical\":\""@
}

/// The moderate tag, shaped like the critical one.
pub open spec fn lit_mod() -> Seq<char> {
    "moderate\":\""@
}

/// The low tag, shaped like the critical one.
pub open spec fn lit_low() -> Seq<char> {
    "low\":\""@
}

/// A double quote.
pub open spec fn lit_q() -> Seq<char> {
    "\""@
}

/// The two braces that close the priority object and the record.
pub open spec fn lit_rb2() -> Seq<char> {
    "}}"@
}

/// The tag literal of a priority variant.
pub open spec fn spec_tag_lit(p: PriorityView) -> Seq<char> {
    match p {
        PriorityView::Critical(_) => lit_crit(),
        PriorityView::Moderate(_) => lit_mod(),
        PriorityView::Low(_) => lit_low(),
    }
}

/// The serialized form of one task record.
pub open spec fn spec_ser_task(t: TaskView) -> Seq<char> {
    lit_obj() + spec_digits_of(t.id as nat) + lit_title() + spec_escape(t.title) + lit_q()
        + lit_desc() + spec_escape(t.description) + lit_q() + lit_prio() + spec_tag_lit(t.priority)
        + spec_escape(spec_label(t.priority)) + lit_q() + lit_rb2()
}

/// The serialized records, separated by commas.
pub open spec fn spec_ser_inner(ts: Seq<TaskView>) -> Seq<char>
    decreases ts.len(),
{
    if ts.len() == 0 {
        Seq::<char>::empty()
    } else if ts.len() == 1 {
        spec_ser_task(ts[0])
    } else {
        spec_ser_task(ts[0]) + seq![','] + spec_ser_inner(ts.drop_first())
    }
}

/// The serialized form of a whole task list.
pub open spec fn spec_save(ts: Seq<TaskView>) -> Seq<char> {
    seq!['['] + spec_ser_inner(ts) + seq![']']
}

/// Appending one record at the end of the comma-separated run.
pub proof fn lemma_ser_inner_snoc(ts: Seq<TaskView>, t: TaskView)
    ensures
        spec_ser_inner(ts.push(t)) == if ts.len() == 0 {
            spec_ser_task(t)
        } else {
            spec_ser_inner(ts) + seq![','] + spec_ser_task(t)
        },
    decreases ts.len(),
{
    let full = ts.push(t);
    if ts.len() == 0 {
        assert(full.len() == 1);
        assert(full[0] == t);
    } else {
        assert(full[0] == ts[0]);
        assert(full.drop_first() =~= ts.drop_first().push(t));
        lemma_ser_inner_snoc(ts.drop_first(), t);
        if ts.len() == 1 {
            assert(spec_ser_inner(full) == spec_ser_task(ts[0]) + seq![',']
                + spec_ser_task(t));
            assert(spec_ser_task(ts[0]) + seq![','] + spec_ser_task(t) =~= spec_ser_inner(ts)
                + seq![','] + spec_ser_task(t));
        } else {
            assert(spec_ser_inner(full) == spec_ser_task(ts[0]) + seq![','] + (spec_ser_inner(
                ts.drop_first(),
            ) + seq![','] + spec_ser_task(t)));
            assert(spec_ser_task(ts[0]) + seq![','] + (spec_ser_inner(ts.drop_first())
                + seq![','] + spec_ser_task(t)) =~= (spec_ser_task(ts[0]) + seq![',']
                + spec_ser_inner(ts.drop_first())) + seq![','] + spec_ser_task(t));
        }
    }
}

// ---------------------------------------------------------------------------
// The executable serializer
// ---------------------------------------------------------------------------

/// Render `n` in decimal.
fn u64_to_string(n: u64) -> (r: String)
    ensures
        r@ == spec_digits_of(n as nat),
    decreases n,
{
    if n < 10 {
        let mut s = String::new();
        s.push(digit_char_exec(n));
        proof {
            assert(Seq::<char>::empty().push(digit_char(n as nat)) =~= seq![
                digit_char(n as nat),
            ]);
        }
        s
    } else {
        let mut s = u64_to_string(n / 10);
        s.push(digit_char_exec(n % 10));
        s
    }
}

/// The character of a digit value.
fn digit_char_exec(d: u64) -> (c: char)
    requires
        d < 10,
    ensures
        c == digit_char(d as nat),
{
    if d == 0 {
        '0'
    } else if d == 1 {
        '1'
    } else if d == 2 {
        '2'
    } else if d == 3 {
        '3'
    } else if d == 4 {
        '4'
    } else if d == 5 {
        '5'
    } else if d == 6 {
        '6'
    } else if d == 7 {
        '7'
    } else if d == 8 {
        '8'
    } else {
        '9'
    }
}

/// The escaped form of `s`, ready to stand between quotes.
fn escape_str(s: &str) -> (r: String)
    ensures
        r@ == spec_escape(s@),
{
    let n = s.unicode_len();
    let mut out = String::new();
    let mut i: usize = 0;
    while i < n
        invariant
            n == s@.len(),
            i <= n,
            out@ == spec_escape(s@.take(i as int)),
        decreases n - i,
    {
        let c = s.get_char(i);
        proof {
            assert(s@.take(i as int).push(s@[i as int]) =~= s@.take(i as int + 1));
            lemma_escape_snoc(s@.take(i as int), s@[i as int]);
        }
        if c == '"' {
            out.push('\\');
            out.push('"');
            proof {
                assert(spec_escape(s@.take(i as int)).push('\\').push('"') =~= spec_escape(
                    s@.take(i as int),
                ) + esc_char(s@[i as int]));
            }
        } else if c == '\\' {
            out.push('\\');
            out.push('\\');
            proof {
                assert(spec_escape(s@.take(i as int)).push('\\').push('\\') =~= spec_escape(
                    s@.take(i as int),
                ) + esc_char(s@[i as int]));
            }
        } else {
            out.push(c);
            proof {
                assert(spec_escape(s@.take(i as int)).push(c) =~= spec_escape(s@.take(i as int))
                    + esc_char(s@[i as int]));
            }
        }
        i = i + 1;
    }
    proof {
        assert(s@.take(n as int) =~= s@);
    }
    out
}

/// Serialize one task record.
fn ser_task_str(t: &ToDoItem) -> (r: String)
    ensures
        r@ == spec_ser_task(t@),
{
    let mut out = String::new();
    out.append("{\"id\":");
    let ds = u64_to_string(t.id);
    out.append(ds.as_str());
    out.append(",\"title\":\"");
    let et = escape_str(t.title.as_str());
    out.append(et.as_str());
    out.append("\"");
    out.append(",\"description\":\"");
    let ed = escape_str(t.description.as_str());
    out.append(ed.as_str());
    out.append("\"");
    out.append(",\"priority\":{\"");
    let label: &String = match &t.priority {
        Priority::critical(l) => {
            out.append("critical\":\"");
            l
        },
        Priority::moderate(l) => {
            out.append("moderate\":\"");
            l
        },
        Priority::low(l) => {
            out.append("low\":\"");
            l
        },
    };
    let el = escape_str(label.as_str());
    out.append(el.as_str());
    out.append("\"");
    out.append("}}");
    proof {
        assert(out@ =~= spec_ser_task(t@));
    }
    out
}

/// Serialize a whole task list into the persisted text.
pub fn save_tasks(items: &Vec<ToDoItem>) -> (r: String)
    ensures
        r@ == spec_save(crate::task::spec_tasks_view(items@)),
{
    let ghost vts = crate::task::spec_tasks_view(items@);
    let mut out = String::new();
    out.append("[");
    proof {
        assert(Seq::<char>::empty() + "["@ =~= "["@);
        reveal_strlit("[");
        assert("["@ =~= seq!['[']);
    }
    let n = items.len();
    let mut i: usize = 0;
    while i < n
        invariant
            n == items@.len(),
            i <= n,
            vts == crate::task::spec_tasks_view(items@),
            out@ == seq!['['] + spec_ser_inner(vts.take(i as int)),
        decreases n - i,
    {
        if i > 0 {
            out.append(",");
            proof {
                reveal_strlit(",");
                assert(","@ =~= seq![',']);
            }
        }
        let st = ser_task_str(&items[i]);
        out.append(st.as_str());
        proof {
            assert(vts.take(i as int).push(vts[i as int]) =~= vts.take(i as int + 1));
            lemma_ser_inner_snoc(vts.take(i as int), vts[i as int]);
            assert(vts[i as int] == items@[i as int]@);
            assert(out@ =~= seq!['['] + spec_ser_inner(vts.take(i as int + 1)));
        }
        i = i + 1;
    }
    out.append("]");
    proof {
        reveal_strlit("]");
        assert("]"@ =~= seq![']']);
        assert(vts.take(n as int) =~= vts);
        assert(out@ =~= spec_save(vts));
    }
    out
}

// ---------------------------------------------------------------------------
// The parser, at the specification level
// ---------------------------------------------------------------------------

/// The text carries `lit` verbatim at position `i`.
pub open spec fn spec_match(s: Seq<char>, i: int, lit: Seq<char>) -> bool {
    0 <= i && i + lit.len() <= s.len() && s.subrange(i, i + lit.len()) == lit
}

/// The position right after the run of digits that starts at `i`.
pub open spec fn digits_end(s: Seq<char>, i: int) -> int
    decreases s.len() - i,
{
    if 0 <= i < s.len() && is_digit(s[i]) {
        digits_end(s, i + 1)
    } else {
        i
    }
}

/// Parse an unsigned decimal number at position `i`: the nonempty digit run
/// starting there, refused when its value does not fit in 64 bits.
pub open spec fn spec_parse_number(s: Seq<char>, i: int) -> Option<(u64, int)> {
    let j = digits_end(s, i);
    if j == i {
        None
    } else if digits_value(s.subrange(i, j)) > u64::MAX {
        None
    } else {
        Some(((digits_value(s.subrange(i, j)) as u64), j))
    }
}

/// Parse the body of a quoted string at position `i`, up to and including
/// the closing quote: a backslash carries the following quote or backslash,
/// any other character stands for itself.
pub open spec fn spec_parse_strbody(s: Seq<char>, i: int) -> Option<(Seq<char>, int)>
    decreases s.len() - i,
{
    if !(0 <= i < s.len()) {
        None
    } else if s[i] == '"' {
        Some((Seq::<char>::empty(), i + 1))
    } else if s[i] == '\\' {
        if i + 1 < s.len() && (s[i + 1] == '"' || s[i + 1] == '\\') {
            match spec_parse_strbody(s, i + 2) {
                Some(r) => Some((seq![s[i + 1]] + r.0, r.1)),
                None => None,
            }
        } else {
            None
        }
    } else {
        match spec_parse_strbody(s, i + 1) {
            Some(r) => Some((seq![s[i]] + r.0, r.1)),
            None => None,
        }
    }
}

/// Parse the priority tag at position `i`: which of the three variant
/// names stands there, through the opening quote of the label. The result
/// carries 0 for critical, 1 for moderate, 2 for low.
pub open spec fn spec_parse_tag(s: Seq<char>, i: int) -> Option<(int, int)> {
    if spec_match(s, i, lit_crit()) {
        Some((0int, i + lit_crit().len()))
    } else if spec_match(s, i, lit_mod()) {
        Some((1int, i + lit_mod().len()))
    } else if spec_match(s, i, lit_low()) {
        Some((2int, i + lit_low().len()))
    } else {
        None
    }
}

/// The priority variant a tag code and a label make.
pub open spec fn spec_mk_prio(code: int, label: Seq<char>) -> PriorityView {
    if code == 0 {
        PriorityView::Critical(label)
    } else if code == 1 {
        PriorityView::Moderate(label)
    } else {
        PriorityView::Low(label)
    }
}

/// Parse one task record at position `i`.
pub open spec fn spec_parse_task(s: Seq<char>, i: int) -> Option<(TaskView, int)> {
    if !spec_match(s, i, lit_obj()) {
        None
    } else {
        match spec_parse_number(s, i + lit_obj().len()) {
            None => None,
            Some(num) => if !spec_match(s, num.1, lit_title()) {
                None
            } else {
                match spec_parse_strbody(s, num.1 + lit_title().len()) {
                    None => None,
                    Some(tit) => if !spec_match(s, tit.1, lit_desc()) {
                        None
                    } else {
                        match spec_parse_strbody(s, tit.1 + lit_desc().len()) {
                            None => None,
                            Some(des) => if !spec_match(s, des.1, lit_prio()) {
                                None
                            } else {
                                match spec_parse_tag(s, des.1 + lit_prio().len()) {
                                    None => None,
                                    Some(tag) => match spec_parse_strbody(s, tag.1) {
                                        None => None,
                                        Some(lab) => if !spec_match(s, lab.1, lit_rb2()) {
                                            None
                                        } else {
                                            Some(
                                                (
                                                    TaskView {
                                                        id: num.0,
                                                        title: tit.0,
                                                        description: des.0,
                                                        priority: spec_mk_prio(tag.0, lab.0),
                                                    },
                                                    lab.1 + lit_rb2().len(),
                                                ),
                                            )
                                        },
                                    },
                                }
                            },
                        }
                    },
                }
            },
        }
    }
}

/// Parse the records after the opening bracket: one or more tasks separated
/// by commas, closed by the bracket.
pub open spec fn spec_parse_rest(s: Seq<char>, i: int) -> Option<(Seq<TaskView>, int)>
    decreases s.len() - i,
{
    match spec_parse_task(s, i) {
        None => None,
        Some(t) => if !(i < t.1 <= s.len()) {
            None
        } else if t.1 < s.len() && s[t.1] == ',' {
            match spec_parse_rest(s, t.1 + 1) {
                None => None,
                Some(ts) => Some((seq![t.0] + ts.0, ts.1)),
            }
        } else if t.1 < s.len() && s[t.1] == ']' {
            Some((seq![t.0], t.1 + 1))
        } else {
            None
        },
    }
}

/// Parse a whole persisted text: a bracketed, comma-separated run of task
/// records with nothing after it, or the empty list `[]`.
pub open spec fn spec_parse_tasks(s: Seq<char>) -> Option<Seq<TaskView>> {
    if s.len() == 2 && s[0] == '[' && s[1] == ']' {
        Some(Seq::<TaskView>::empty())
    } else if s.len() >= 1 && s[0] == '[' {
        match spec_parse_rest(s, 1) {
            None => None,
            Some(ts) => if ts.1 == s.len() {
                Some(ts.0)
            } else {
                None
            },
        }
    } else {
        None
    }
}

/// What loading a persisted text yields: the parsed records, or the empty
/// sequence when the text is not a well-formed task list.
pub open spec fn spec_load(s: Seq<char>) -> Seq<TaskView> {
    match spec_parse_tasks(s) {
        Some(ts) => ts,
        None => Seq::<TaskView>::empty(),
    }
}

// ---------------------------------------------------------------------------
// Parsing inverts serialization
// ---------------------------------------------------------------------------

/// A text that carries a concatenation carries both parts, one after the
/// other.
proof fn lemma_match_split(s: Seq<char>, i: int, x: Seq<char>, y: Seq<char>)
    requires
        spec_match(s, i, x + y),
    ensures
        spec_match(s, i, x),
        spec_match(s, i + x.len(), y),
{
    let xy = x + y;
    assert(forall|k: int| 0 <= k < xy.len() ==> s[i + k] == #[trigger] xy[k]) by {
        assert(forall|k: int|
            0 <= k < xy.len() ==> #[trigger] s.subrange(i, i + xy.len())[k] == s[i + k]);
    }
    assert(s.subrange(i, i + x.len()) =~= x) by {
        assert(forall|k: int| 0 <= k < x.len() ==> #[trigger] xy[k] == x[k]);
        assert(forall|k: int|
            0 <= k < x.len() ==> #[trigger] s.subrange(i, i + x.len())[k] == s[i + k]);
    }
    assert(s.subrange(i + x.len(), i + x.len() + y.len()) =~= y) by {
        assert(forall|k: int| 0 <= k < y.len() ==> #[trigger] y[k] == xy[x.len() + k]);
        assert(forall|k: int|
            0 <= k < y.len() ==> #[trigger] s.subrange(i + x.len(), i + x.len() + y.len())[k]
                == s[i + x.len() + k]);
    }
}

/// A digit run bounded by a non-digit (or the end) is scanned exactly to
/// its bound.
proof fn lemma_digits_end_run(s: Seq<char>, i: int, j: int)
    requires
        0 <= i <= j <= s.len(),
        forall|k: int| i <= k < j ==> is_digit(#[trigger] s[k]),
        j == s.len() || !is_digit(s[j]),
    ensures
        digits_end(s, i) == j,
    decreases j - i,
{
    if i < j {
        lemma_digits_end_run(s, i + 1, j);
    }
}

/// A serialized number followed by a non-digit parses back to its value.
proof fn lemma_parse_number_at(s: Seq<char>, i: int, n: u64)
    requires
        0 <= i,
        i + spec_digits_of(n as nat).len() < s.len(),
        s.subrange(i, i + spec_digits_of(n as nat).len()) == spec_digits_of(n as nat),
        !is_digit(s[i + spec_digits_of(n as nat).len()]),
    ensures
        spec_parse_number(s, i) == Some((n, i + spec_digits_of(n as nat).len())),
{
    let d = spec_digits_of(n as nat);
    let j = i + d.len();
    lemma_digits_of(n as nat);
    assert(forall|k: int| i <= k < j ==> is_digit(#[trigger] s[k])) by {
        assert(forall|k: int| i <= k < j ==> s[k] == d[k - i]);
    }
    lemma_digits_end_run(s, i, j);
    assert(digits_value(s.subrange(i, j)) == n);
}

/// The escaped body of a string, closed by a quote, parses back to the
/// original string.
proof fn lemma_parse_strbody_at(s: Seq<char>, i: int, t: Seq<char>)
    requires
        0 <= i,
        i + spec_escape(t).len() < s.len(),
        s.subrange(i, i + spec_escape(t).len()) == spec_escape(t),
        s[i + spec_escape(t).len()] == '"',
    ensures
        spec_parse_strbody(s, i) == Some((t, i + spec_escape(t).len() + 1)),
    decreases t.len(),
{
    let e = spec_escape(t);
    if t.len() == 0 {
        assert(s[i] == '"');
    } else {
        let t2 = t.drop_first();
        let e2 = spec_escape(t2);
        let ec = esc_char(t[0]);
        assert(e == ec + e2);
        assert(spec_match(s, i, ec + e2));
        lemma_match_split(s, i, ec, e2);
        assert(s.subrange(i, i + ec.len())[0] == s[i]);
        assert(s[i] == ec[0]);
        if t[0] == '"' || t[0] == '\\' {
            assert(ec.len() == 2);
            assert(s.subrange(i, i + ec.len())[1] == s[i + 1]);
            assert(s[i] == '\\');
            assert(s[i + 1] == ec[1] && ec[1] == t[0]);
            lemma_parse_strbody_at(s, i + 2, t2);
            assert(seq![s[i + 1]] + t2 =~= t);
        } else {
            assert(ec.len() == 1);
            assert(s[i] == t[0]);
            lemma_parse_strbody_at(s, i + 1, t2);
            assert(seq![s[i]] + t2 =~= t);
        }
    }
}

/// A serialized task record parses back to the same record.
#[verifier::rlimit(60)]
proof fn lemma_parse_task_at(s: Seq<char>, i: int, t: TaskView)
    requires
        0 <= i,
        i + spec_ser_task(t).len() <= s.len(),
        s.subrange(i, i + spec_ser_task(t).len()) == spec_ser_task(t),
    ensures
        spec_parse_task(s, i) == Some((t, i + spec_ser_task(t).len())),
{
    reveal_strlit("{\"id\":");
    reveal_strlit(",\"title\":\"");
    reveal_strlit(",\"description\":\"");
    reveal_strlit(",\"priority\":{\"");
    reveal_strlit("critical\":\"");
    reveal_strlit("moderate\":\"");
    reveal_strlit("low\":\"");
    reveal_strlit("\"");
    reveal_strlit("}}");
    let w = spec_ser_task(t);
    let d = spec_digits_of(t.id as nat);
    let et = spec_escape(t.title);
    let ed = spec_escape(t.description);
    let tg = spec_tag_lit(t.priority);
    let el = spec_escape(spec_label(t.priority));
    // peel the concatenation from the right, one part at a time
    let p1 = lit_obj() + d;
    let p2 = p1 + lit_title();
    let p3 = p2 + et;
    let p4 = p3 + lit_q();
    let p5 = p4 + lit_desc();
    let p6 = p5 + ed;
    let p7 = p6 + lit_q();
    let p8 = p7 + lit_prio();
    let p9 = p8 + tg;
    let p10 = p9 + el;
    let p11 = p10 + lit_q();
    assert(w == p11 + lit_rb2());
    assert(spec_match(s, i, w)) by {
        assert(s.subrange(i, i + w.len()) == w);
    }
    lemma_match_split(s, i, p11, lit_rb2());
    lemma_match_split(s, i, p10, lit_q());
    lemma_match_split(s, i, p9, el);
    lemma_match_split(s, i, p8, tg);
    lemma_match_split(s, i, p7, lit_prio());
    lemma_match_split(s, i, p6, lit_q());
    lemma_match_split(s, i, p5, ed);
    lemma_match_split(s, i, p4, lit_desc());
    lemma_match_split(s, i, p3, lit_q());
    lemma_match_split(s, i, p2, et);
    lemma_match_split(s, i, p1, lit_title());
    lemma_match_split(s, i, lit_obj(), d);
    let o1 = i + lit_obj().len();
    let o2 = o1 + d.len();
    let o3 = o2 + lit_title().len();
    let o4 = o3 + et.len();
    let o5 = o4 + 1 + lit_desc().len();
    let o6 = o5 + ed.len();
    let o7 = o6 + 1 + lit_prio().len();
    let o8 = o7 + tg.len();
    let o9 = o8 + el.len();
    let oend = o9 + 1 + lit_rb2().len();
    assert(w.len() == oend - i);
    // the id digits are bounded by the comma of the title key
    assert(s.subrange(o2, o2 + lit_title().len())[0] == s[o2]);
    assert(s[o2] == lit_title()[0]);
    assert(!is_digit(s[o2]));
    lemma_parse_number_at(s, o1, t.id);
    // each escaped string is closed by the quote that follows it
    assert(s.subrange(o4, o4 + 1)[0] == s[o4]);
    assert(s[o4] == lit_q()[0]);
    lemma_parse_strbody_at(s, o3, t.title);
    assert(s.subrange(o6, o6 + 1)[0] == s[o6]);
    assert(s[o6] == lit_q()[0]);
    lemma_parse_strbody_at(s, o5, t.description);
    // the priority tag
    let code: int = match t.priority {
        PriorityView::Critical(_) => 0,
        PriorityView::Moderate(_) => 1,
        PriorityView::Low(_) => 2,
    };
    assert(spec_parse_tag(s, o7) == Some((code, o8))) by {
        assert(s.subrange(o7, o7 + tg.len())[0] == s[o7]);
        assert(s[o7] == tg[0]);
        match t.priority {
            PriorityView::Critical(_) => {
                assert(spec_match(s, o7, lit_crit()));
            },
            PriorityView::Moderate(_) => {
                assert(s[o7] == 'm');
                assert(!spec_match(s, o7, lit_crit())) by {
                    if spec_match(s, o7, lit_crit()) {
                        assert(s.subrange(o7, o7 + lit_crit().len())[0] == s[o7]);
                    }
                }
                assert(spec_match(s, o7, lit_mod()));
            },
            PriorityView::Low(_) => {
                assert(s[o7] == 'l');
                assert(!spec_match(s, o7, lit_crit())) by {
                    if spec_match(s, o7, lit_crit()) {
                        assert(s.subrange(o7, o7 + lit_crit().len())[0] == s[o7]);
                    }
                }
                assert(!spec_match(s, o7, lit_mod())) by {
                    if spec_match(s, o7, lit_mod()) {
                        assert(s.subrange(o7, o7 + lit_mod().len())[0] == s[o7]);
                    }
                }
                assert(spec_match(s, o7, lit_low()));
            },
        }
    }
    // the escaped label, the closing quote, and the two closing braces
    assert(s.subrange(o9, o9 + 1)[0] == s[o9]);
    assert(s[o9] == lit_q()[0]);
    lemma_parse_strbody_at(s, o8, spec_label(t.priority));
    assert(spec_match(s, o9 + 1, lit_rb2()));
    assert(spec_mk_prio(code, spec_label(t.priority)) == t.priority);
}

/// One or more serialized records, separated by commas and closed by the
/// bracket, parse back to the same records.
proof fn lemma_parse_rest_at(s: Seq<char>, i: int, ts: Seq<TaskView>)
    requires
        ts.len() >= 1,
        0 <= i,
        i + spec_ser_inner(ts).len() < s.len(),
        s.subrange(i, i + spec_ser_inner(ts).len()) == spec_ser_inner(ts),
        s[i + spec_ser_inner(ts).len()] == ']',
    ensures
        spec_parse_rest(s, i) == Some((ts, i + spec_ser_inner(ts).len() + 1)),
    decreases ts.len(),
{
    reveal_strlit("{\"id\":");
    let w = spec_ser_inner(ts);
    let w0 = spec_ser_task(ts[0]);
    if ts.len() == 1 {
        assert(w == w0);
        lemma_parse_task_at(s, i, ts[0]);
        assert(s[i + w0.len()] == ']');
        assert(seq![ts[0]] =~= ts);
    } else {
        let rest = ts.drop_first();
        let wr = spec_ser_inner(rest);
        assert(w == (w0 + seq![',']) + wr);
        assert(spec_match(s, i, w)) by {
            assert(s.subrange(i, i + w.len()) == w);
        }
        lemma_match_split(s, i, w0 + seq![','], wr);
        lemma_match_split(s, i, w0, seq![',']);
        lemma_parse_task_at(s, i, ts[0]);
        let j = i + w0.len();
        assert(s.subrange(j, j + 1)[0] == s[j]);
        assert(s[j] == ',');
        assert(s[j + 1 + wr.len()] == ']');
        lemma_parse_rest_at(s, j + 1, rest);
        assert(seq![ts[0]] + rest =~= ts);
    }
}

/// Any serialized record is at least as long as its opener.
proof fn lemma_ser_task_len(t: TaskView)
    ensures
        spec_ser_task(t).len() >= 6,
{
    reveal_strlit("{\"id\":");
}

/// Saving a task sequence and loading the saved text yields the same
/// sequence again: persistence is lossless for every task list, whatever
/// the titles, descriptions and labels hold.
pub proof fn lemma_save_load_round_trip(ts: Seq<TaskView>)
    ensures
        spec_load(spec_save(ts)) == ts,
{
    let inner = spec_ser_inner(ts);
    let s = spec_save(ts);
    assert(s.len() == inner.len() + 2);
    assert(spec_match(s, 0, (seq!['['] + inner) + seq![']'])) by {
        assert(s.subrange(0, s.len() as int) == s);
    }
    lemma_match_split(s, 0, seq!['['] + inner, seq![']']);
    lemma_match_split(s, 0, seq!['['], inner);
    assert(s.subrange(0, 1)[0] == s[0]);
    assert(s[0] == '[');
    let e = 1 + inner.len() as int;
    assert(s.subrange(e, e + 1)[0] == s[e]);
    assert(s[e] == ']');
    if ts.len() == 0 {
        assert(s.len() == 2);
        assert(spec_parse_tasks(s) == Some(Seq::<TaskView>::empty()));
        assert(spec_load(s) =~= ts);
    } else {
        lemma_ser_task_len(ts[0]);
        assert(inner.len() >= 6);
        assert(s.len() > 2);
        lemma_parse_rest_at(s, 1, ts);
        assert(spec_parse_tasks(s) == Some(ts));
    }
}

// ---------------------------------------------------------------------------
// The executable parser
// ---------------------------------------------------------------------------

/// Whether `c` is a decimal digit.
fn is_digit_char(c: char) -> (r: bool)
    ensures
        r == is_digit(c),
{
    c == '0' || c == '1' || c == '2' || c == '3' || c == '4' || c == '5' || c == '6' || c == '7'
        || c == '8' || c == '9'
}

/// The value of a decimal digit character.
fn digit_val_u64(c: char) -> (d: u64)
    requires
        is_digit(c),
    ensures
        d as nat == digit_val(c),
        d < 10,
{
    if c == '0' {
        0
    } else if c == '1' {
        1
    } else if c == '2' {
        2
    } else if c == '3' {
        3
    } else if c == '4' {
        4
    } else if c == '5' {
        5
    } else if c == '6' {
        6
    } else if c == '7' {
        7
    } else if c == '8' {
        8
    } else {
        9
    }
}

/// Whether the text carries `lit` verbatim at position `i`.
fn match_lit(s: &str, i: usize, lit: &str) -> (r: bool)
    ensures
        r == spec_match(s@, i as int, lit@),
        s@.len() <= usize::MAX,
{
    let n = lit.unicode_len();
    let sl = s.unicode_len();
    if i > sl || n > sl - i {
        return false;
    }
    let mut k: usize = 0;
    while k < n
        invariant
            n == lit@.len(),
            sl == s@.len(),
            i + n <= sl,
            k <= n,
            forall|m: int| 0 <= m < k ==> s@[i + m] == lit@[m],
        decreases n - k,
    {
        let a = s.get_char(i + k);
        let b = lit.get_char(k);
        if a != b {
            proof {
                assert(s@.subrange(i as int, i + lit@.len())[k as int] == s@[i + k]);
            }
            return false;
        }
        k = k + 1;
    }
    proof {
        assert(s@.subrange(i as int, i + lit@.len()) =~= lit@) by {
            assert(forall|m: int|
                0 <= m < lit@.len() ==> #[trigger] s@.subrange(i as int, i + lit@.len())[m]
                    == s@[i + m]);
        }
    }
    true
}

/// Parse an unsigned decimal number at position `i`.
fn parse_number(s: &str, i: usize) -> (r: Option<(u64, usize)>)
    ensures
        match r {
            Some(p) => spec_parse_number(s@, i as int) == Some((p.0, p.1 as int)) && i < p.1
                <= s@.len(),
            None => spec_parse_number(s@, i as int) is None,
        },
{
    let sl = s.unicode_len();
    if i >= sl {
        return None;
    }
    let mut j: usize = i;
    loop
        invariant
            sl == s@.len(),
            i <= j <= sl,
            forall|m: int| i <= m < j ==> is_digit(#[trigger] s@[m]),
            digits_end(s@, i as int) == digits_end(s@, j as int),
        ensures
            sl == s@.len(),
            i <= j <= sl,
            forall|m: int| i <= m < j ==> is_digit(#[trigger] s@[m]),
            digits_end(s@, i as int) == j as int,
        decreases sl - j,
    {
        if j >= sl {
            proof {
                assert(digits_end(s@, j as int) == j as int);
            }
            break ;
        }
        let c = s.get_char(j);
        if !is_digit_char(c) {
            proof {
                assert(digits_end(s@, j as int) == j as int);
            }
            break ;
        }
        j = j + 1;
    }
    if j == i {
        return None;
    }
    let ghost seg = s@.subrange(i as int, j as int);
    let mut acc: u64 = 0;
    let mut k: usize = i;
    while k < j
        invariant
            sl == s@.len(),
            i <= k <= j <= sl,
            forall|m: int| i <= m < j ==> is_digit(#[trigger] s@[m]),
            seg == s@.subrange(i as int, j as int),
            digits_end(s@, i as int) == j as int,
            acc as nat == digits_value(s@.subrange(i as int, k as int)),
        decreases j - k,
    {
        let c = s.get_char(k);
        let d = digit_val_u64(c);
        proof {
            assert(s@.subrange(i as int, k as int).push(s@[k as int]) =~= s@.subrange(
                i as int,
                k + 1,
            ));
            lemma_digits_value_snoc(s@.subrange(i as int, k as int), s@[k as int]);
            vstd::arithmetic::div_mod::lemma_fundamental_div_mod(
                (u64::MAX - d) as int,
                10,
            );
        }
        if acc > (u64::MAX - d) / 10 {
            proof {
                assert(acc as int * 10 + d as int > u64::MAX as int) by (nonlinear_arith)
                    requires
                        acc as int > ((u64::MAX - d) as int) / 10,
                        (u64::MAX - d) as int == 10 * (((u64::MAX - d) as int) / 10) + ((
                        u64::MAX - d) as int) % 10,
                        ((u64::MAX - d) as int) % 10 < 10,
                        d as int >= 0,
                ;
                assert(digits_value(s@.subrange(i as int, k + 1)) > u64::MAX);
                assert(s@.subrange(i as int, k + 1) =~= seg.take(k + 1 - i));
                lemma_digits_value_take_le(seg, k + 1 - i);
                assert(digits_value(seg) > u64::MAX);
            }
            return None;
        }
        proof {
            assert(acc as int * 10 + d as int <= u64::MAX as int) by (nonlinear_arith)
                requires
                    acc as int <= ((u64::MAX - d) as int) / 10,
                    (u64::MAX - d) as int == 10 * (((u64::MAX - d) as int) / 10) + ((u64::MAX
                        - d) as int) % 10,
                    ((u64::MAX - d) as int) % 10 >= 0,
                    d as int >= 0,
            ;
        }
        acc = acc * 10 + d;
        k = k + 1;
    }
    proof {
        assert(s@.subrange(i as int, k as int) == seg);
    }
    Some((acc, j))
}

/// Parse the body of a quoted string at position `i`, up to and including
/// the closing quote.
fn parse_strbody(s: &str, i: usize) -> (r: Option<(String, usize)>)
    ensures
        match r {
            Some(p) => spec_parse_strbody(s@, i as int) == Some((p.0@, p.1 as int)) && i < p.1
                <= s@.len(),
            None => spec_parse_strbody(s@, i as int) is None,
        },
{
    let sl = s.unicode_len();
    if i > sl {
        return None;
    }
    let mut out = String::new();
    let mut j: usize = i;
    proof {
        match spec_parse_strbody(s@, i as int) {
            Some(q) => {
                assert(Seq::<char>::empty() + q.0 =~= q.0);
            },
            None => {},
        }
    }
    loop
        invariant
            sl == s@.len(),
            i <= j <= sl,
            (match spec_parse_strbody(s@, j as int) {
                Some(q) => spec_parse_strbody(s@, i as int) == Some((out@ + q.0, q.1)),
                None => spec_parse_strbody(s@, i as int) is None,
            }),
        decreases sl - j,
    {
        if j >= sl {
            return None;
        }
        let c = s.get_char(j);
        if c == '"' {
            proof {
                assert(out@ + Seq::<char>::empty() =~= out@);
            }
            return Some((out, j + 1));
        } else if c == '\\' {
            if j + 1 < sl {
                let c2 = s.get_char(j + 1);
                if c2 == '"' || c2 == '\\' {
                    proof {
                        match spec_parse_strbody(s@, j + 2) {
                            Some(q) => {
                                assert(out@ + (seq![s@[j + 1]] + q.0) =~= out@.push(s@[j + 1])
                                    + q.0);
                            },
                            None => {},
                        }
                    }
                    out.push(c2);
                    j = j + 2;
                } else {
                    return None;
                }
            } else {
                return None;
            }
        } else {
            proof {
                match spec_parse_strbody(s@, j as int + 1) {
                    Some(q) => {
                        assert(out@ + (seq![s@[j as int]] + q.0) =~= out@.push(s@[j as int])
                            + q.0);
                    },
                    None => {},
                }
            }
            out.push(c);
            j = j + 1;
        }
    }
}

/// Parse the priority tag at position `i`. The code is 0 for critical, 1
/// for moderate, 2 for low.
fn parse_tag(s: &str, i: usize) -> (r: Option<(u8, usize)>)
    ensures
        match r {
            Some(p) => spec_parse_tag(s@, i as int) == Some((p.0 as int, p.1 as int)) && i
                < p.1 <= s@.len(),
            None => spec_parse_tag(s@, i as int) is None,
        },
{
    proof {
        reveal_strlit("critical\":\"");
        reveal_strlit("moderate\":\"");
        reveal_strlit("low\":\"");
    }
    if match_lit(s, i, "critical\":\"") {
        let n = "critical\":\"".unicode_len();
        Some((0, i + n))
    } else if match_lit(s, i, "moderate\":\"") {
        let n = "moderate\":\"".unicode_len();
        Some((1, i + n))
    } else if match_lit(s, i, "low\":\"") {
        let n = "low\":\"".unicode_len();
        Some((2, i + n))
    } else {
        None
    }
}

/// Build a `Priority` from a tag code and a label.
fn mk_priority(code: u8, label: String) -> (p: Priority)
    ensures
        p@ == spec_mk_prio(code as int, label@),
{
    if code == 0 {
        Priority::critical(label)
    } else if code == 1 {
        Priority::moderate(label)
    } else {
        Priority::low(label)
    }
}

/// Parse one task record at position `i`.
fn parse_task(s: &str, i: usize) -> (r: Option<(ToDoItem, usize)>)
    ensures
        match r {
            Some(p) => spec_parse_task(s@, i as int) == Some((p.0@, p.1 as int)) && i < p.1
                <= s@.len(),
            None => spec_parse_task(s@, i as int) is None,
        },
{
    proof {
        reveal_strlit("{\"id\":");
        reveal_strlit(",\"title\":\"");
        reveal_strlit(",\"description\":\"");
        reveal_strlit(",\"priority\":{\"");
        reveal_strlit("}}");
    }
    if !match_lit(s, i, "{\"id\":") {
        return None;
    }
    let i1 = i + "{\"id\":".unicode_len();
    let (id, i2) = match parse_number(s, i1) {
        Some(p) => p,
        None => {
            return None;
        },
    };
    if !match_lit(s, i2, ",\"title\":\"") {
        return None;
    }
    let i3 = i2 + ",\"title\":\"".unicode_len();
    let (title, i4) = match parse_strbody(s, i3) {
        Some(p) => p,
        None => {
            return None;
        },
    };
    if !match_lit(s, i4, ",\"description\":\"") {
        return None;
    }
    let i5 = i4 + ",\"description\":\"".unicode_len();
    let (description, i6) = match parse_strbody(s, i5) {
        Some(p) => p,
        None => {
            return None;
        },
    };
    if !match_lit(s, i6, ",\"priority\":{\"") {
        return None;
    }
    let i7 = i6 + ",\"priority\":{\"".unicode_len();
    let (code, i8) = match parse_tag(s, i7) {
        Some(p) => p,
        None => {
            return None;
        },
    };
    let (label, i9) = match parse_strbody(s, i8) {
        Some(p) => p,
        None => {
            return None;
        },
    };
    if !match_lit(s, i9, "}}") {
        return None;
    }
    let iend = i9 + "}}".unicode_len();
    let priority = mk_priority(code, label);
    Some((ToDoItem { id, title, description, priority }, iend))
}

/// Parse one or more records separated by commas and closed by the
/// bracket, starting at position `i`.
fn parse_rest(s: &str, i: usize) -> (r: Option<(Vec<ToDoItem>, usize)>)
    ensures
        match r {
            Some(p) => spec_parse_rest(s@, i as int) == Some(
                (crate::task::spec_tasks_view(p.0@), p.1 as int),
            ) && i < p.1 <= s@.len(),
            None => spec_parse_rest(s@, i as int) is None,
        },
    decreases s@.len() - i,
{
    let sl = s.unicode_len();
    let (t, j) = match parse_task(s, i) {
        Some(p) => p,
        None => {
            return None;
        },
    };
    if j < sl {
        let c = s.get_char(j);
        if c == ',' {
            match parse_rest(s, j + 1) {
                Some((mut ts, k)) => {
                    let ghost old_ts = ts@;
                    let mut v: Vec<ToDoItem> = Vec::new();
                    v.push(t);
                    v.append(&mut ts);
                    proof {
                        assert(crate::task::spec_tasks_view(v@) =~= seq![t@]
                            + crate::task::spec_tasks_view(old_ts));
                    }
                    Some((v, k))
                },
                None => None,
            }
        } else if c == ']' {
            let mut v: Vec<ToDoItem> = Vec::new();
            v.push(t);
            proof {
                assert(crate::task::spec_tasks_view(v@) =~= seq![t@]);
            }
            Some((v, j + 1))
        } else {
            None
        }
    } else {
        None
    }
}

/// Parse a whole persisted text into the task list it holds; a text that
/// is not a well-formed task list — empty, truncated, or otherwise
/// malformed — yields the empty list, never an error.
pub fn load_tasks(s: &str) -> (r: Vec<ToDoItem>)
    ensures
        crate::task::spec_tasks_view(r@) == spec_load(s@),
        s@.len() == 0 ==> r@ == Seq::<ToDoItem>::empty(),
{
    let sl = s.unicode_len();
    proof {
        assert(crate::task::spec_tasks_view(Seq::<ToDoItem>::empty())
            =~= Seq::<TaskView>::empty());
    }
    if sl >= 1 && s.get_char(0) == '[' {
        if sl == 2 && s.get_char(1) == ']' {
            Vec::new()
        } else {
            match parse_rest(s, 1) {
                Some((ts, j)) => if j == sl {
                    ts
                } else {
                    Vec::new()
                },
                None => Vec::new(),
            }
        }
    } else {
        Vec::new()
    }
}

/// Parse a whole text as an unsigned decimal number: every character must
/// be a digit and the value must fit in 64 bits.
pub open spec fn spec_parse_u64(s: Seq<char>) -> Option<u64> {
    if s.len() == 0 || !all_digits(s) {
        None
    } else if digits_value(s) > u64::MAX {
        None
    } else {
        Some(digits_value(s) as u64)
    }
}

/// Parse a whole text as an unsigned decimal number.
pub fn parse_u64(s: &str) -> (r: Option<u64>)
    ensures
        r == spec_parse_u64(s@),
{
    let sl = s.unicode_len();
    if sl == 0 {
        return None;
    }
    let mut acc: u64 = 0;
    let mut k: usize = 0;
    while k < sl
        invariant
            sl == s@.len(),
            k <= sl,
            forall|m: int| 0 <= m < k ==> is_digit(#[trigger] s@[m]),
            acc as nat == digits_value(s@.take(k as int)),
        decreases sl - k,
    {
        let c = s.get_char(k);
        if !is_digit_char(c) {
            return None;
        }
        let d = digit_val_u64(c);
        proof {
            assert(s@.take(k as int).push(s@[k as int]) =~= s@.take(k + 1));
            lemma_digits_value_snoc(s@.take(k as int), s@[k as int]);
            vstd::arithmetic::div_mod::lemma_fundamental_div_mod((u64::MAX - d) as int, 10);
        }
        if acc > (u64::MAX - d) / 10 {
            proof {
                assert(acc as int * 10 + d as int > u64::MAX as int) by (nonlinear_arith)
                    requires
                        acc as int > ((u64::MAX - d) as int) / 10,
                        (u64::MAX - d) as int == 10 * (((u64::MAX - d) as int) / 10) + ((
                        u64::MAX - d) as int) % 10,
                        ((u64::MAX - d) as int) % 10 < 10,
                        d as int >= 0,
                ;
                assert(digits_value(s@.take(k + 1)) > u64::MAX);
                lemma_digits_value_take_le(s@, k + 1);
                assert(digits_value(s@) > u64::MAX);
            }
            return None;
        }
        proof {
            assert(acc as int * 10 + d as int <= u64::MAX as int) by (nonlinear_arith)
                requires
                    acc as int <= ((u64::MAX - d) as int) / 10,
                    (u64::MAX - d) as int == 10 * (((u64::MAX - d) as int) / 10) + ((u64::MAX
                        - d) as int) % 10,
                    ((u64::MAX - d) as int) % 10 >= 0,
                    d as int >= 0,
            ;
        }
        acc = acc * 10 + d;
        k = k + 1;
    }
    proof {
        assert(s@.take(sl as int) =~= s@);
    }
    Some(acc)
}

} // verus!
