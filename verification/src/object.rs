use vstd::prelude::*;
use crate::config::NAME_MAX;
use crate::list::List;
use vstd::string::StringSliceAdditionalSpecFns;

verus! {

/// Kind of a kernel object.
#[derive(PartialEq, Eq, Structural, Copy, Clone, Debug)]
pub enum ObjectClassType {
    Null,
    Thread,
    Semaphore,
    Mutex,
    Event,
    MailBox,
    MessageQueue,
    MemHeap,
    MemPool,
    Device,
    Timer,
    Module,
    Memory,
    Channel,
    Custom,
    Unknown,
    Static,
}

/// Slots of the object container, one per kind of object.
#[derive(PartialEq, Eq, Structural, Copy, Clone, Debug)]
pub enum ObjectInfoType {
    Thread,
    Semaphore,
    Mutex,
    Event,
    MailBox,
    MessageQueue,
    MemHeap,
    MemPool,
    Device,
    Timer,
    Module,
    Memory,
    Channel,
    Custom,
    Unknown,
}

/// Number of slots of the object container (the index of `ObjectInfoType::Unknown`).
pub const OBJECT_INFO_COUNT: usize = 14;

impl ObjectClassType {
    /// The numeric code of the kind.
    pub fn code(self) -> (c: u8)
        ensures
            c == self.spec_code(),
    {
        match self {
            ObjectClassType::Null => 0x00,
            ObjectClassType::Thread => 0x01,
            ObjectClassType::Semaphore => 0x02,
            ObjectClassType::Mutex => 0x03,
            ObjectClassType::Event => 0x04,
            ObjectClassType::MailBox => 0x05,
            ObjectClassType::MessageQueue => 0x06,
            ObjectClassType::MemHeap => 0x07,
            ObjectClassType::MemPool => 0x08,
            ObjectClassType::Device => 0x09,
            ObjectClassType::Timer => 0x0a,
            ObjectClassType::Module => 0x0b,
            ObjectClassType::Memory => 0x0c,
            ObjectClassType::Channel => 0x0d,
            ObjectClassType::Custom => 0x0e,
            ObjectClassType::Unknown => 0x0f,
            ObjectClassType::Static => 0x80,
        }
    }

    pub open spec fn spec_code(self) -> u8 {
        match self {
            ObjectClassType::Null => 0x00,
            ObjectClassType::Thread => 0x01,
            ObjectClassType::Semaphore => 0x02,
            ObjectClassType::Mutex => 0x03,
            ObjectClassType::Event => 0x04,
            ObjectClassType::MailBox => 0x05,
            ObjectClassType::MessageQueue => 0x06,
            ObjectClassType::MemHeap => 0x07,
            ObjectClassType::MemPool => 0x08,
            ObjectClassType::Device => 0x09,
            ObjectClassType::Timer => 0x0a,
            ObjectClassType::Module => 0x0b,
            ObjectClassType::Memory => 0x0c,
            ObjectClassType::Channel => 0x0d,
            ObjectClassType::Custom => 0x0e,
            ObjectClassType::Unknown => 0x0f,
            ObjectClassType::Static => 0x80,
        }
    }
}

/// `String::push` from std: per its documentation it appends the character
/// `c` to the end of `s`.
#[verifier::external_body]
fn string_push(s: &mut String, c: char)
    ensures
        final(s)@ == old(s)@.push(c),
{
    s.push(c);
}

/// Appends the characters of `t` to `s`.
pub(crate) fn push_text(s: &mut String, t: &str)
    ensures
        final(s)@ == old(s)@ + t@,
{
    broadcast use {vstd::string::axiom_spec_iter, vstd::string::next_postcondition};

    let ghost start = s@;
    for c in it: t.chars()
        invariant
            it.seq() == t@,
            s@ == start + t@.take(it.index() as int),
    {
        string_push(s, c);
        proof {
            assert(start + t@.take(it.index() + 1) =~= (start + t@.take(it.index() as int)).push(c));
        }
    }
    proof {
        assert(t@.take(t@.len() as int) =~= t@);
    }
}

/// The text of an object kind: "Type:" then "Null", "thread", "timer", or
/// "Unknown" for the other kinds.
pub open spec fn class_text(k: ObjectClassType) -> Seq<char> {
    match k {
        ObjectClassType::Null => "Type:Null"@,
        ObjectClassType::Thread => "Type:thread"@,
        ObjectClassType::Timer => "Type:timer"@,
        _ => "Type:Unknown"@,
    }
}

impl ObjectClassType {
    /// The text of the kind (see `class_text`).
    pub fn to_string(&self) -> (s: String)
        ensures
            s@ == class_text(*self),
    {
        match self {
            ObjectClassType::Null => String::from_str("Type:Null"),
            ObjectClassType::Thread => String::from_str("Type:thread"),
            ObjectClassType::Timer => String::from_str("Type:timer"),
            _ => String::from_str("Type:Unknown"),
        }
    }
}

/// The text of an object: in brackets, its name bytes as characters, a
/// blank and the text of its kind.
pub open spec fn object_text(o: Object) -> Seq<char> {
    "["@ + o.name@.map_values(|b: u8| b as char) + " "@ + class_text(o.kind) + "]"@
}

/// A named kernel object.
#[derive(Copy, Clone)]
pub struct Object {
    pub name: [u8; NAME_MAX],
    pub kind: ObjectClassType,
    pub flag: u8,
}

/// The bytes an object name is stored as: the first `NAME_MAX` bytes of
/// `bytes`, and zeros after its end.
pub open spec fn padded_name(bytes: Seq<u8>) -> Seq<u8> {
    Seq::new(NAME_MAX as nat, |i: int| if i < bytes.len() { bytes[i] } else { 0u8 })
}

/// `old` with its first bytes replaced by those of `bytes`, at most `NAME_MAX` of them.
pub open spec fn overwritten_name(old: Seq<u8>, bytes: Seq<u8>) -> Seq<u8> {
    Seq::new(NAME_MAX as nat, |i: int| if i < bytes.len() { bytes[i] } else { old[i] })
}

impl Object {
    /// The text of the object (see `object_text`).
    pub fn to_string(&self) -> (s: String)
        ensures
            s@ == object_text(*self),
    {
        let mut s = String::from_str("[");
        let ghost start = s@;
        let mut i: usize = 0;
        while i < NAME_MAX
            invariant
                i <= NAME_MAX,
                start == "["@,
                s@ == start + self.name@.map_values(|b: u8| b as char).take(i as int),
            decreases NAME_MAX - i,
        {
            let b: u8 = self.name[i];
            string_push(&mut s, b as char);
            proof {
                assert(start + self.name@.map_values(|b: u8| b as char).take(i + 1) =~= (start
                    + self.name@.map_values(|b: u8| b as char).take(i as int)).push(b as char));
            }
            i = i + 1;
        }
        proof {
            assert(self.name@.map_values(|b: u8| b as char).take(NAME_MAX as int) =~= self.name@.map_values(
                |b: u8| b as char,
            ));
        }
        push_text(&mut s, " ");
        let kind_text = self.kind.to_string();
        push_text(&mut s, kind_text.as_str());
        push_text(&mut s, "]");
        s
    }

    /// An object with an all-zero name, of kind `Null`.
    pub fn new() -> (o: Self)
        ensures
            o.name@ == Seq::new(NAME_MAX as nat, |i: int| 0u8),
            o.kind == ObjectClassType::Null,
            o.flag == 0,
    {
        let o = Object { name: [0u8; NAME_MAX], kind: ObjectClassType::Null, flag: 0 };
        assert(o.name@ =~= Seq::new(NAME_MAX as nat, |i: int| 0u8));
        o
    }

    /// Sets the kind and copies the first `NAME_MAX` bytes of `name` into the
    /// object's name; bytes past the end of `name` keep their value.
    pub fn init(&mut self, kind: ObjectClassType, name: &str)
        ensures
            final(self).kind == kind,
            final(self).flag == old(self).flag,
            final(self).name@ == overwritten_name(old(self).name@, name.spec_bytes()),
    {
        self.kind = kind;
        let bytes = name.as_bytes();
        let mut index: usize = 0;
        while index < NAME_MAX
            invariant
                0 <= index <= NAME_MAX,
                bytes@ == name.spec_bytes(),
                self.kind == kind,
                self.flag == old(self).flag,
                forall|i: int|
                    0 <= i < NAME_MAX ==> #[trigger] self.name@[i] == (if i < index && i
                        < bytes@.len() {
                        bytes@[i]
                    } else {
                        old(self).name@[i]
                    }),
            decreases NAME_MAX - index,
        {
            if index < bytes.len() {
                self.name[index] = bytes[index];
            } else {
                assert(self.name@ =~= overwritten_name(old(self).name@, name.spec_bytes()));
                return;
            }
            index += 1;
        }
        assert(self.name@ =~= overwritten_name(old(self).name@, name.spec_bytes()));
    }

    /// Whether `name`, cut to `NAME_MAX` bytes and padded with zeros, is the
    /// object's name.
    pub fn compare_name(&self, name: &str) -> (b: bool)
        ensures
            b == (self.name@ == padded_name(name.spec_bytes())),
    {
        let bytes = name.as_bytes();
        let mut index: usize = 0;
        while index < NAME_MAX
            invariant
                0 <= index <= NAME_MAX,
                bytes@ == name.spec_bytes(),
                forall|i: int|
                    0 <= i < index ==> #[trigger] self.name@[i] == padded_name(bytes@)[i],
            decreases NAME_MAX - index,
        {
            let expected: u8 = if index < bytes.len() {
                bytes[index]
            } else {
                0
            };
            if self.name[index] != expected {
                assert(self.name@[index as int] != padded_name(bytes@)[index as int]);
                return false;
            }
            index += 1;
        }
        assert(self.name@ =~= padded_name(bytes@));
        true
    }

    /// Whether two objects have the same name, kind and flag.
    pub fn same(&self, other: &Object) -> (b: bool)
        ensures
            b == (self.name@ == other.name@ && self.kind == other.kind && self.flag
                == other.flag),
    {
        if self.kind != other.kind || self.flag != other.flag {
            return false;
        }
        let mut index: usize = 0;
        while index < NAME_MAX
            invariant
                0 <= index <= NAME_MAX,
                forall|i: int| 0 <= i < index ==> #[trigger] self.name@[i] == other.name@[i],
            decreases NAME_MAX - index,
        {
            if self.name[index] != other.name[index] {
                return false;
            }
            index += 1;
        }
        assert(self.name@ =~= other.name@);
        true
    }
}

/// The objects of one kind.
pub struct ObjectInformation {
    pub object_class_type: ObjectClassType,
    pub object_list: List<Object>,
    pub object_size: u16,
}

impl ObjectInformation {
    /// An empty slot of kind `Null`.
    pub fn new() -> (info: Self)
        ensures
            info.object_class_type == ObjectClassType::Null,
            info.object_list@.len() == 0,
            info.object_size == 0,
    {
        ObjectInformation {
            object_class_type: ObjectClassType::Null,
            object_list: List::new(),
            object_size: 0,
        }
    }

    /// Empties the slot and gives it a kind and an object size.
    pub fn init(&mut self, kind: ObjectClassType, size: u16)
        ensures
            final(self).object_class_type == kind,
            final(self).object_list@.len() == 0,
            final(self).object_size == size,
    {
        self.object_list = List::new();
        self.object_class_type = kind;
        self.object_size = size;
    }
}

} // verus!
