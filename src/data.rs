//! Decoded values and messages, and their mathematical views.
use vstd::prelude::*;

verus! {

/// The mathematical value of a [`WeechatData`]: text as a sequence of
/// characters, containers as sequences.
pub enum DataView {
    Char(char),
    Int(i32),
    Long(i64),
    Str(Seq<char>),
    StrNull,
    Buf(Seq<char>),
    BufNull,
    Ptr(Seq<char>),
    Time(Seq<char>),
    Array(Seq<DataView>),
    /// Path, schema as (name, type) pairs, and one object per record.
    Hdata(Seq<char>, Seq<(Seq<char>, Seq<char>)>, Seq<ObjectView>),
}

/// The mathematical value of an [`HdataObject`].
pub struct ObjectView {
    pub pointers: Seq<Seq<char>>,
    pub fields: Seq<(Seq<char>, DataView)>,
}

/// One value of the protocol's typed value sequence.
#[derive(PartialEq, Eq, Debug)]
pub enum WeechatData {
    Char(char),
    Int(i32),
    Long(i64),
    String(String),
    StringNull,
    Buffer(String),
    BufferNull,
    /// A pointer rendered as `0x` and its hex digits.
    Pointer(String),
    /// A Unix timestamp, kept as its decimal text.
    Time(String),
    /// Elements that all have the array's element type.
    Array(Vec<WeechatData>),
    /// Path, schema, and the records that follow the schema.
    Hdata(String, Vec<HdataKey>, Vec<HdataObject>),
}

/// One `name:type` entry of an hdata schema.
#[derive(PartialEq, Eq, Debug)]
pub struct HdataKey {
    pub name: String,
    pub kind: String,
}

/// One hdata record: one pointer per path segment, in path order, then one
/// field per schema entry, in schema order.
#[derive(PartialEq, Eq, Debug)]
pub struct HdataObject {
    pub pointers: Vec<String>,
    pub fields: Vec<(String, WeechatData)>,
}

impl WeechatData {
    pub open spec fn view(&self) -> DataView
        decreases self,
    {
        match self {
            WeechatData::Char(c) => DataView::Char(*c),
            WeechatData::Int(i) => DataView::Int(*i),
            WeechatData::Long(l) => DataView::Long(*l),
            WeechatData::String(s) => DataView::Str(s@),
            WeechatData::StringNull => DataView::StrNull,
            WeechatData::Buffer(s) => DataView::Buf(s@),
            WeechatData::BufferNull => DataView::BufNull,
            WeechatData::Pointer(s) => DataView::Ptr(s@),
            WeechatData::Time(s) => DataView::Time(s@),
            WeechatData::Array(v) => DataView::Array(
                Seq::new(
                    v.len() as nat,
                    |i: int|
                        if 0 <= i < v.len() {
                            v@[i].view()
                        } else {
                            DataView::StrNull
                        },
                ),
            ),
            WeechatData::Hdata(path, keys, objects) => DataView::Hdata(
                path@,
                Seq::new(keys.len() as nat, |i: int| (keys[i].name@, keys[i].kind@)),
                Seq::new(
                    objects.len() as nat,
                    |i: int|
                        ObjectView {
                            pointers: Seq::new(
                                objects[i].pointers.len() as nat,
                                |j: int| objects[i].pointers[j]@,
                            ),
                            fields: Seq::new(
                                objects[i].fields.len() as nat,
                                |j: int|
                                    if 0 <= i < objects.len() && 0 <= j
                                        < objects@[i].fields.len() {
                                        (
                                            objects@[i].fields@[j].0@,
                                            objects@[i].fields@[j].1.view(),
                                        )
                                    } else {
                                        (Seq::empty(), DataView::StrNull)
                                    },
                            ),
                        },
                ),
            ),
        }
    }
}


/// Whether `i` is the position of the first field named `name`.
pub open spec fn is_first_field(fields: Seq<(String, WeechatData)>, name: Seq<char>, i: int) -> bool {
    &&& 0 <= i < fields.len()
    &&& fields[i].0@ == name
    &&& forall|j: int| 0 <= j < i ==> fields[j].0@ != name
}

pub proof fn lemma_first_field_unique(
    fields: Seq<(String, WeechatData)>,
    name: Seq<char>,
    i: int,
    k: int,
)
    requires
        is_first_field(fields, name, i),
        is_first_field(fields, name, k),
    ensures
        i == k,
{
    if i < k {
        assert(fields[i].0@ != name);
    } else if k < i {
        assert(fields[k].0@ != name);
    }
}

/// The text `highlight`.
pub open spec fn highlight_name() -> Seq<char> {
    seq!['h', 'i', 'g', 'h', 'l', 'i', 'g', 'h', 't']
}

impl HdataObject {
    /// A record whose first `highlight` field is the character U+0001: a
    /// chat line that highlights the user.
    pub open spec fn spec_is_highlighted(&self) -> bool {
        exists|i: int|
            is_first_field(self.fields@, highlight_name(), i) && self.fields@[i].1
                == WeechatData::Char('\u{1}')
    }

    /// Whether this record is a line that highlights the user.
    pub fn is_highlighted(&self) -> (r: bool)
        ensures
            r == self.spec_is_highlighted(),
    {
        proof {
            reveal_strlit("highlight");
        }
        assert("highlight"@ =~= highlight_name());
        match self.get("highlight") {
            Some(v) => {
                let ghost i = choose|i: int|
                    0 <= i < self.fields@.len() && self.fields@[i].0@ == highlight_name() && *v
                        == self.fields@[i].1 && forall|j: int|
                        0 <= j < i ==> self.fields@[j].0@ != highlight_name();
                assert(is_first_field(self.fields@, highlight_name(), i));
                assert forall|k: int| is_first_field(self.fields@, highlight_name(), k) implies k
                    == i by {
                    lemma_first_field_unique(self.fields@, highlight_name(), i, k);
                }
                match v {
                    WeechatData::Char(c) => *c == '\u{1}',
                    _ => false,
                }
            },
            None => false,
        }
    }

    /// The value of the first field named `name`, if there is one.
    pub fn get(&self, name: &str) -> (r: Option<&WeechatData>)
        ensures
            match r {
                Some(v) => exists|i: int|
                    0 <= i < self.fields@.len() && self.fields@[i].0@ == name@ && *v
                        == self.fields@[i].1 && forall|j: int|
                        0 <= j < i ==> self.fields@[j].0@ != name@,
                None => forall|i: int| 0 <= i < self.fields@.len() ==> self.fields@[i].0@ != name@,
            },
    {
        let key = name.to_owned();
        let mut i: usize = 0;
        while i < self.fields.len()
            invariant
                i <= self.fields@.len(),
                key@ == name@,
                forall|j: int| 0 <= j < i ==> self.fields@[j].0@ != name@,
            decreases self.fields.len() - i,
        {
            if self.fields[i].0 == key {
                return Some(&self.fields[i].1);
            }
            i = i + 1;
        }
        None
    }
}

} // verus!
