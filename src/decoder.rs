//! Decoding of messages from the lines that arrive on the wire.
use vstd::prelude::*;
use vstd::string::*;

use crate::message::{
    concat_lines, encode, encoded_lines, field_line, keys_unique, name_line, terminator_line, with_field, FcpMessage,
    MessageView,
};

verus! {

/// `s` without the newlines at its end.
pub open spec fn strip_newlines(s: Seq<char>) -> Seq<char>
    decreases s.len(),
{
    if s.len() > 0 && s.last() == '\n' {
        strip_newlines(s.drop_last())
    } else {
        s
    }
}

/// `i` is the position of the first `=` in `s`.
pub open spec fn first_equal_sign_at(s: Seq<char>, i: int) -> bool {
    &&& 0 <= i < s.len()
    &&& s[i] == '='
    &&& forall|j: int| 0 <= j < i ==> s[j] != '='
}

/// The field that a line carries: the line is split at its first `=` into
/// key and value, and the value loses its trailing newlines. A line without
/// `=` carries no field.
pub open spec fn field_of_line(line: Seq<char>) -> Option<(Seq<char>, Seq<char>)> {
    if exists|i: int| first_equal_sign_at(line, i) {
        let i = choose|i: int| first_equal_sign_at(line, i);
        Some((line.subrange(0, i), strip_newlines(line.subrange(i + 1, line.len() as int))))
    } else {
        None
    }
}

/// Where the decoding of one message stands.
pub struct DecodeState {
    /// The message read so far.
    pub message: MessageView,
    /// The name line has been read.
    pub name_read: bool,
    /// The line that closes the message has been read.
    pub complete: bool,
}

/// The state before any line has been read.
pub open spec fn initial_state() -> DecodeState {
    DecodeState {
        message: MessageView { name: Seq::empty(), fields: Seq::empty() },
        name_read: false,
        complete: false,
    }
}

/// The state after reading one more line: the first line is the name, each
/// following line with a `=` sets a field, and the first line without one
/// closes the message. A closed message takes no more lines.
pub open spec fn step(st: DecodeState, line: Seq<char>) -> DecodeState {
    if st.complete {
        st
    } else if !st.name_read {
        DecodeState {
            message: MessageView { name: strip_newlines(line), fields: Seq::empty() },
            name_read: true,
            complete: false,
        }
    } else {
        match field_of_line(line) {
            Some(f) => DecodeState {
                message: MessageView {
                    name: st.message.name,
                    fields: with_field(st.message.fields, f.0, f.1),
                },
                ..st
            },
            None => DecodeState { complete: true, ..st },
        }
    }
}

/// The state after reading `lines` in order.
pub open spec fn decode_lines(lines: Seq<Seq<char>>) -> DecodeState
    decreases lines.len(),
{
    if lines.len() == 0 {
        initial_state()
    } else {
        step(decode_lines(lines.drop_last()), lines.last())
    }
}

/// `l` ends with a newline and holds no other: one line as a reader of the
/// wire cuts it.
pub open spec fn is_wire_line(l: Seq<char>) -> bool {
    &&& l.len() > 0
    &&& l.last() == '\n'
    &&& forall|j: int| 0 <= j < l.len() - 1 ==> l[j] != '\n'
}

/// `k` is the length of the first line of `text`, its newline included.
pub open spec fn first_line_ends_at(text: Seq<char>, k: int) -> bool {
    &&& 0 < k <= text.len()
    &&& text[k - 1] == '\n'
    &&& forall|j: int| 0 <= j < k - 1 ==> text[j] != '\n'
}

/// The lines that a reader of `text` gets, one read after the other: each
/// ends after the next newline, and the last one at the end of the text.
pub open spec fn read_lines(text: Seq<char>) -> Seq<Seq<char>>
    decreases text.len(),
{
    if text.len() == 0 {
        Seq::empty()
    } else {
        let k = if exists|k: int| first_line_ends_at(text, k) {
            choose|k: int| first_line_ends_at(text, k)
        } else {
            text.len() as int
        };
        seq![text.take(k)] + read_lines(text.skip(k))
    }
}

proof fn lemma_read_wire_line(l: Seq<char>, rest: Seq<char>)
    requires
        is_wire_line(l),
    ensures
        read_lines(l + rest) == seq![l] + read_lines(rest),
{
    let t = l + rest;
    let n = l.len() as int;
    assert(t[n - 1] == l[n - 1]);
    assert forall|j: int| 0 <= j < n - 1 implies t[j] != '\n' by {
        assert(t[j] == l[j]);
    }
    assert(first_line_ends_at(t, n));
    assert forall|k: int| first_line_ends_at(t, k) implies k == n by {
        if k < n {
            assert(t[k - 1] == l[k - 1]);
        } else if k > n {
            assert(t[n - 1] == '\n');
        }
    }
    assert(t.take(n) =~= l);
    assert(t.skip(n) =~= rest);
}

proof fn lemma_concat_front(lines: Seq<Seq<char>>)
    requires
        lines.len() > 0,
    ensures
        concat_lines(lines) == lines[0] + concat_lines(lines.drop_first()),
    decreases lines.len(),
{
    if lines.len() == 1 {
        assert(lines.drop_last() =~= Seq::<Seq<char>>::empty());
        assert(lines.drop_first() =~= Seq::<Seq<char>>::empty());
        assert(lines[0] + Seq::<char>::empty() =~= lines[0]);
        assert(Seq::<char>::empty() + lines[0] =~= lines[0]);
    } else {
        lemma_concat_front(lines.drop_last());
        assert(lines.drop_last().drop_first() =~= lines.drop_first().drop_last());
        assert(lines.drop_first().last() == lines.last());
        assert(lines.drop_last()[0] == lines[0]);
        assert(concat_lines(lines.drop_first()) == concat_lines(lines.drop_first().drop_last())
            + lines.last());
        let a = lines[0];
        let b = concat_lines(lines.drop_first().drop_last());
        assert(a + b + lines.last() =~= a + (b + lines.last()));
    }
}

proof fn lemma_read_concat(lines: Seq<Seq<char>>)
    requires
        forall|k: int| 0 <= k < lines.len() ==> is_wire_line(#[trigger] lines[k]),
    ensures
        read_lines(concat_lines(lines)) == lines,
    decreases lines.len(),
{
    if lines.len() == 0 {
        assert(read_lines(Seq::<char>::empty()) == Seq::<Seq<char>>::empty());
    } else {
        let rest = lines.drop_first();
        assert forall|k: int| 0 <= k < rest.len() implies is_wire_line(#[trigger] rest[k]) by {
            assert(rest[k] == lines[k + 1]);
        }
        lemma_read_concat(rest);
        lemma_concat_front(lines);
        assert(is_wire_line(lines[0]));
        lemma_read_wire_line(lines[0], concat_lines(rest));
        assert(seq![lines[0]] + rest =~= lines);
    }
}

/// A message that its wire form can carry: no newline in its name, neither
/// `=` nor newline in a key or a value, no key twice.
pub open spec fn is_framable(m: MessageView) -> bool {
    &&& keys_unique(m.fields)
    &&& !m.name.contains('\n')
    &&& forall|i: int|
        0 <= i < m.fields.len() ==> {
            let f = #[trigger] m.fields[i];
            &&& !f.0.contains('=')
            &&& !f.0.contains('\n')
            &&& !f.1.contains('=')
            &&& !f.1.contains('\n')
        }
}

proof fn lemma_strip_plain(s: Seq<char>)
    requires
        !s.contains('\n'),
    ensures
        strip_newlines(s) == s,
        strip_newlines(s + "\n"@) == s,
{
    reveal_strlit("\n");
    let t = s + "\n"@;
    assert(t.drop_last() =~= s);
    if s.len() > 0 {
        assert(s[s.len() - 1] == s.last());
    }
    assert(strip_newlines(s) == s);
    assert(strip_newlines(t) == strip_newlines(t.drop_last()));
}

proof fn lemma_field_line(k: Seq<char>, v: Seq<char>)
    requires
        !k.contains('='),
        !v.contains('='),
        !v.contains('\n'),
    ensures
        field_of_line(field_line(k, v)) == Some((k, v)),
{
    reveal_strlit("=");
    reveal_strlit("\n");
    let l = field_line(k, v);
    let i = k.len() as int;
    assert(l[i] == '=');
    assert forall|j: int| 0 <= j < i implies l[j] != '=' by {
        assert(l[j] == k[j]);
    }
    assert(first_equal_sign_at(l, i));
    assert forall|x: int| first_equal_sign_at(l, x) implies x == i by {
        if x > i {
            assert(l[i] != '=');
        } else if x < i {
            assert(l[x] == k[x]);
        }
    }
    assert(l.subrange(0, i) =~= k);
    assert(l.subrange(i + 1, l.len() as int) =~= v + "\n"@);
    lemma_strip_plain(v);
}

proof fn lemma_terminator_carries_no_field()
    ensures
        field_of_line(terminator_line()) is None,
        is_wire_line(terminator_line()),
{
    reveal_strlit("EndMessage\n");
    let l = terminator_line();
    assert(forall|j: int| 0 <= j < l.len() ==> l[j] != '=');
}

proof fn lemma_decode_prefix(m: MessageView, j: int)
    requires
        is_framable(m),
        0 <= j <= m.fields.len(),
    ensures
        decode_lines(encoded_lines(m).take(j + 1)) == (DecodeState {
            message: MessageView { name: m.name, fields: m.fields.take(j) },
            name_read: true,
            complete: false,
        }),
    decreases j,
{
    let lines = encoded_lines(m);
    let prefix = lines.take(j + 1);
    if j == 0 {
        assert(prefix.drop_last() =~= Seq::<Seq<char>>::empty());
        assert(decode_lines(prefix.drop_last()) == initial_state());
        assert(prefix.last() == name_line(m.name));
        lemma_strip_plain(m.name);
        assert(m.fields.take(0) =~= Seq::<(Seq<char>, Seq<char>)>::empty());
    } else {
        lemma_decode_prefix(m, j - 1);
        assert(prefix.drop_last() =~= lines.take(j));
        let f = m.fields[j - 1];
        assert(lines[j] == field_line(f.0, f.1));
        assert(prefix.last() == field_line(f.0, f.1));
        lemma_field_line(f.0, f.1);
        let before = m.fields.take(j - 1);
        assert(!crate::message::has_key(before, f.0)) by {
            if crate::message::has_key(before, f.0) {
                let x = choose|x: int| 0 <= x < before.len() && (#[trigger] before[x]).0 == f.0;
                assert(m.fields[x].0 == m.fields[j - 1].0);
            }
        }
        assert(before.push(f) =~= m.fields.take(j));
    }
}

/// Decoding a message's wire form, read line by line, gives back the same
/// message, with the same name and the same fields in the same order: the
/// reader gets exactly the encoded lines, and the decoder completes exactly
/// on the last of them.
pub proof fn lemma_decode_encoded(m: MessageView)
    requires
        is_framable(m),
    ensures
        read_lines(encode(m)) == encoded_lines(m),
        decode_lines(encoded_lines(m)).complete,
        decode_lines(encoded_lines(m)).message == m,
        forall|k: int|
            0 <= k < encoded_lines(m).len() ==> !(#[trigger] decode_lines(
                encoded_lines(m).take(k),
            )).complete,
        forall|k: int|
            0 <= k < encoded_lines(m).len() ==> is_wire_line(#[trigger] encoded_lines(m)[k]),
{
    reveal_strlit("=");
    reveal_strlit("\n");
    let lines = encoded_lines(m);
    let n = m.fields.len() as int;
    assert(lines.len() == n + 2);
    lemma_decode_prefix(m, n);
    assert(lines.drop_last() =~= lines.take(n + 1));
    assert(m.fields.take(n) =~= m.fields);
    lemma_terminator_carries_no_field();
    assert forall|k: int| 0 <= k < lines.len() implies !(#[trigger] decode_lines(
        lines.take(k),
    )).complete by {
        if k == 0 {
            assert(lines.take(0) =~= Seq::<Seq<char>>::empty());
        } else {
            lemma_decode_prefix(m, k - 1);
        }
    }
    assert forall|k: int| 0 <= k < lines.len() implies is_wire_line(#[trigger] lines[k]) by {
        if k == 0 {
            assert(lines[0] == name_line(m.name));
        } else if k <= n {
            let f = m.fields[k - 1];
            assert(lines[k] == field_line(f.0, f.1));
            let l = lines[k];
            assert forall|j: int| 0 <= j < l.len() - 1 implies l[j] != '\n' by {
                if j < f.0.len() {
                    assert(l[j] == f.0[j]);
                } else if j > f.0.len() {
                    assert(l[j] == f.1[j - f.0.len() - 1]);
                }
            }
        } else {
            lemma_terminator_carries_no_field();
        }
    }
    lemma_read_concat(lines);
}

/// Returns `s` without the newlines at its end.
pub fn strip_trailing_newlines(s: &str) -> (r: String)
    ensures
        r@ == strip_newlines(s@),
{
    let n = s.unicode_len();
    let mut end: usize = n;
    assert(s@.subrange(0, n as int) =~= s@);
    while end > 0 && s.get_char(end - 1) == '\n'
        invariant
            n == s@.len(),
            end <= n,
            strip_newlines(s@.subrange(0, end as int)) == strip_newlines(s@),
        decreases end,
    {
        assert(s@.subrange(0, end as int).drop_last() =~= s@.subrange(0, end - 1));
        end = end - 1;
    }
    s.substring_char(0, end).to_owned()
}

/// Splits a line at its first `=` into key and value, the value without
/// its trailing newlines; a line without `=` gives `None`.
pub fn parse_field_line(line: &str) -> (r: Option<(String, String)>)
    ensures
        match r {
            Some(f) => field_of_line(line@) == Some((f.0@, f.1@)),
            None => field_of_line(line@) is None,
        },
{
    let n = line.unicode_len();
    let mut i: usize = 0;
    while i < n
        invariant
            n == line@.len(),
            i <= n,
            forall|j: int| 0 <= j < i ==> line@[j] != '=',
        decreases n - i,
    {
        if line.get_char(i) == '=' {
            assert(first_equal_sign_at(line@, i as int));
            assert(forall|k: int| first_equal_sign_at(line@, k) ==> k == i);
            let key = line.substring_char(0, i).to_owned();
            let value = strip_trailing_newlines(line.substring_char(i + 1, n));
            return Some((key, value));
        }
        i = i + 1;
    }
    None
}

/// Reads one message line by line, as the lines arrive.
#[derive(Debug)]
pub struct MessageDecoder {
    message: FcpMessage,
    name_read: bool,
    complete: bool,
}

impl View for MessageDecoder {
    type V = DecodeState;

    closed spec fn view(&self) -> DecodeState {
        DecodeState { message: self.message@, name_read: self.name_read, complete: self.complete }
    }
}

impl MessageDecoder {
    /// The message read so far has unique keys.
    pub closed spec fn wf(&self) -> bool {
        self.message.wf()
    }

    /// A decoder that has read no line yet.
    pub fn new() -> (r: MessageDecoder)
        ensures
            r.wf(),
            r@ == initial_state(),
    {
        let r = MessageDecoder {
            message: FcpMessage::create(""),
            name_read: false,
            complete: false,
        };
        assert(r@.message.name == Seq::<char>::empty()) by {
            reveal_strlit("");
        }
        assert(r@.message =~= initial_state().message);
        r
    }

    /// Takes the next line, as read from the wire with its newline, and tells
    /// whether the message is now complete.
    pub fn feed_line(&mut self, line: &str) -> (complete: bool)
        requires
            old(self).wf(),
        ensures
            final(self).wf(),
            final(self)@ == step(old(self)@, line@),
            complete == final(self)@.complete,
    {
        if self.complete {
            return true;
        }
        if !self.name_read {
            let name = strip_trailing_newlines(line);
            self.message = FcpMessage::create(name.as_str());
            self.name_read = true;
            assert(self@.message =~= step(old(self)@, line@).message);
            return false;
        }
        match parse_field_line(line) {
            Some(field) => {
                self.message.add_field(field.0.as_str(), field.1.as_str());
                false
            },
            None => {
                self.complete = true;
                true
            },
        }
    }

    /// Whether the line that closes the message has been read.
    pub fn is_complete(&self) -> (r: bool)
        ensures
            r == self@.complete,
    {
        self.complete
    }

    /// The message read so far.
    pub fn into_message(self) -> (r: FcpMessage)
        requires
            self.wf(),
        ensures
            r.wf(),
            r@ == self@.message,
    {
        self.message
    }
}

} // verus!
