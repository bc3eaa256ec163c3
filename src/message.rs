//! FCP messages and their wire form.
use vstd::prelude::*;
use vstd::string::*;

verus! {

/// The abstract content of a message: its name and its fields, each field
/// a key and a value, in the order in which each key was first set.
pub struct MessageView {
    pub name: Seq<char>,
    pub fields: Seq<(Seq<char>, Seq<char>)>,
}

/// Whether some field of `fields` has the key `key`.
pub open spec fn has_key(fields: Seq<(Seq<char>, Seq<char>)>, key: Seq<char>) -> bool {
    exists|i: int| 0 <= i < fields.len() && (#[trigger] fields[i]).0 == key
}

/// No two fields share a key.
pub open spec fn keys_unique(fields: Seq<(Seq<char>, Seq<char>)>) -> bool {
    forall|i: int, j: int|
        0 <= i < j < fields.len() ==> (#[trigger] fields[i]).0 != (#[trigger] fields[j]).0
}

/// The position of the field with key `key` (meaningful where `has_key` holds).
pub open spec fn key_index(fields: Seq<(Seq<char>, Seq<char>)>, key: Seq<char>) -> int {
    choose|i: int| 0 <= i < fields.len() && (#[trigger] fields[i]).0 == key
}

/// The fields after setting `key` to `value`: an existing field with that key
/// takes the new value in place, otherwise the field is appended.
pub open spec fn with_field(
    fields: Seq<(Seq<char>, Seq<char>)>,
    key: Seq<char>,
    value: Seq<char>,
) -> Seq<(Seq<char>, Seq<char>)> {
    if has_key(fields, key) {
        fields.update(key_index(fields, key), (key, value))
    } else {
        fields.push((key, value))
    }
}

/// The line that carries a message's name.
pub open spec fn name_line(name: Seq<char>) -> Seq<char> {
    name + "\n"@
}

/// The line that carries one field.
pub open spec fn field_line(key: Seq<char>, value: Seq<char>) -> Seq<char> {
    key + "="@ + value + "\n"@
}

/// The line that closes every message.
pub open spec fn terminator_line() -> Seq<char> {
    "EndMessage\n"@
}

/// The lines of a message on the wire: the name, one line per field in
/// order, then the terminator.
pub open spec fn encoded_lines(m: MessageView) -> Seq<Seq<char>> {
    seq![name_line(m.name)] + m.fields.map_values(|f: (Seq<char>, Seq<char>)| field_line(f.0, f.1))
        + seq![terminator_line()]
}

/// Lines written one after the other.
pub open spec fn concat_lines(lines: Seq<Seq<char>>) -> Seq<char>
    decreases lines.len(),
{
    if lines.len() == 0 {
        Seq::empty()
    } else {
        concat_lines(lines.drop_last()) + lines.last()
    }
}

/// The wire form of a message.
pub open spec fn encode(m: MessageView) -> Seq<char> {
    concat_lines(encoded_lines(m))
}

/// An FCP message.
///
/// A message consists of a name and an arbitrary number of
/// key-value pairs; keys are unique and keep the order in which they
/// were first set, which is also the order in which they are sent.
#[derive(Debug)]
pub struct FcpMessage {
    /// The name of the message.
    name: String,
    /// The key-value pairs making up the content of the message.
    fields: Vec<(String, String)>,
}

impl View for FcpMessage {
    type V = MessageView;

    closed spec fn view(&self) -> MessageView {
        MessageView {
            name: self.name@,
            fields: self.fields@.map_values(|f: (String, String)| (f.0@, f.1@)),
        }
    }
}

impl FcpMessage {
    /// Keys are unique.
    pub open spec fn wf(&self) -> bool {
        keys_unique(self@.fields)
    }

    /// Creates a new FCP message with the given name and no fields.
    pub fn create(name: &str) -> (r: FcpMessage)
        ensures
            r.wf(),
            r@.name == name@,
            r@.fields == Seq::<(Seq<char>, Seq<char>)>::empty(),
    {
        let r = FcpMessage { name: name.to_owned(), fields: Vec::new() };
        assert(r@.fields =~= Seq::<(Seq<char>, Seq<char>)>::empty());
        r
    }

    /// The name of the message.
    pub fn name(&self) -> (r: &str)
        ensures
            r@ == self@.name,
    {
        self.name.as_str()
    }

    /// The number of fields.
    pub fn field_count(&self) -> (r: usize)
        ensures
            r == self@.fields.len(),
    {
        self.fields.len()
    }

    /// The value of the field with the given key, if there is one.
    pub fn field(&self, key: &str) -> (r: Option<String>)
        requires
            self.wf(),
        ensures
            match r {
                Some(v) => has_key(self@.fields, key@) && self@.fields[key_index(
                    self@.fields,
                    key@,
                )].1 == v@,
                None => !has_key(self@.fields, key@),
            },
    {
        let wanted = key.to_owned();
        let n = self.fields.len();
        let mut i: usize = 0;
        while i < n
            invariant
                n == self.fields.len(),
                self.wf(),
                wanted@ == key@,
                0 <= i <= n,
                forall|j: int| 0 <= j < i ==> (#[trigger] self@.fields[j]).0 != key@,
            decreases n - i,
        {
            assert(self@.fields[i as int] == (self.fields@[i as int].0@, self.fields@[i as int].1@));
            if self.fields[i].0 == wanted {
                proof {
                    let fs = self@.fields;
                    assert(has_key(fs, key@));
                    let k = key_index(fs, key@);
                    assert(0 <= k < fs.len() && fs[k].0 == key@);
                    assert(k == i) by {
                        if k < i {
                            assert(fs[k].0 != fs[i as int].0);
                        } else if k > i {
                            assert(fs[i as int].0 != fs[k].0);
                        }
                    }
                }
                return Some(self.fields[i].1.clone());
            }
            i = i + 1;
        }
        None
    }

    /// Adds a field to the message.
    ///
    /// If a field with the given name already exists, it will be
    /// overwritten.
    pub fn add_field(&mut self, name: &str, value: &str)
        requires
            old(self).wf(),
        ensures
            final(self).wf(),
            final(self)@.name == old(self)@.name,
            final(self)@.fields == with_field(old(self)@.fields, name@, value@),
    {
        let key = name.to_owned();
        let n = self.fields.len();
        let mut i: usize = 0;
        while i < n
            invariant
                n == self.fields.len(),
                *self == *old(self),
                old(self).wf(),
                key@ == name@,
                0 <= i <= n,
                forall|j: int| 0 <= j < i ==> (#[trigger] self@.fields[j]).0 != key@,
            decreases n - i,
        {
            if self.fields[i].0 == key {
                proof {
                    let fs = old(self)@.fields;
                    assert(self.fields@[i as int].0@ == name@);
                    assert(fs[i as int].0 == name@);
                    assert(has_key(fs, name@));
                    let k = key_index(fs, name@);
                    assert(0 <= k < fs.len() && fs[k].0 == name@);
                    assert(k == i) by {
                        if k < i {
                            assert(fs[k].0 != fs[i as int].0);
                        } else if k > i {
                            assert(fs[i as int].0 != fs[k].0);
                        }
                    }
                }
                self.fields.set(i, (key, value.to_owned()));
                assert(self@.fields =~= with_field(old(self)@.fields, name@, value@));
                assert(forall|j: int|
                    0 <= j < self@.fields.len() ==> (#[trigger] self@.fields[j]).0
                        == old(self)@.fields[j].0);
                return;
            }
            assert(self@.fields[i as int].0 == self.fields@[i as int].0@);
            i = i + 1;
        }
        self.fields.push((key, value.to_owned()));
        assert(!has_key(old(self)@.fields, name@));
        assert(self@.fields =~= with_field(old(self)@.fields, name@, value@));
    }

    /// Renders the message into a field set suitable for transferring
    /// it over FCP.
    pub fn to_field_set(&self) -> (r: String)
        ensures
            r@ == encode(self@),
    {
        let ghost lines = encoded_lines(self@);
        let ghost body = self@.fields.map_values(
            |f: (Seq<char>, Seq<char>)| field_line(f.0, f.1),
        );
        let mut string = String::new();
        string.append(self.name.as_str());
        string.append("\n");
        proof {
            let first = seq![name_line(self@.name)];
            assert(first.drop_last() =~= Seq::<Seq<char>>::empty());
            assert(first + body.take(0) =~= first);
            assert(concat_lines(Seq::<Seq<char>>::empty()) == Seq::<char>::empty());
            assert(concat_lines(first) == Seq::<char>::empty() + name_line(self@.name));
            assert(Seq::<char>::empty() + self.name@ =~= self.name@);
            assert(Seq::<char>::empty() + name_line(self@.name) =~= name_line(self@.name));
        }
        let n = self.fields.len();
        let mut i: usize = 0;
        while i < n
            invariant
                n == self.fields.len(),
                body == self@.fields.map_values(
                    |f: (Seq<char>, Seq<char>)| field_line(f.0, f.1),
                ),
                0 <= i <= n,
                string@ == concat_lines(seq![name_line(self@.name)] + body.take(i as int)),
            decreases n - i,
        {
            string.append(self.fields[i].0.as_str());
            string.append("=");
            string.append(self.fields[i].1.as_str());
            string.append("\n");
            proof {
                let first = seq![name_line(self@.name)];
                let next = first + body.take(i + 1);
                assert(next.drop_last() =~= first + body.take(i as int));
                assert(next.last() == body[i as int]);
            }
            i = i + 1;
        }
        string.append("EndMessage\n");
        proof {
            let first = seq![name_line(self@.name)];
            assert(body.take(n as int) =~= body);
            assert(lines.drop_last() =~= first + body);
        }
        string
    }
}

} // verus!
