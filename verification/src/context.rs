//! The classes of the byte array and of its iterator, and how their methods get there.
use vstd::prelude::*;

verus! {

/// A dictionary from the name of a method to the name of the function that carries it out.
pub struct MethodTable {
    entries: Vec<(String, String)>,
}

/// Whether the entry `i` has the name `name`.
spec fn entry_named(entries: Seq<(String, String)>, name: Seq<char>, i: int) -> bool {
    0 <= i < entries.len() && entries[i].0@ == name
}

/// The dictionary that the entries make up.
spec fn dictionary(entries: Seq<(String, String)>) -> Map<Seq<char>, Seq<char>> {
    Map::new(
        |name: Seq<char>| exists|i: int| entry_named(entries, name, i),
        |name: Seq<char>| entries[choose|i: int| entry_named(entries, name, i)].1@,
    )
}

impl View for MethodTable {
    type V = Map<Seq<char>, Seq<char>>;

    closed spec fn view(&self) -> Map<Seq<char>, Seq<char>> {
        dictionary(self.entries@)
    }
}

impl MethodTable {
    /// Every name stands once.
    pub closed spec fn well_formed(&self) -> bool {
        forall|i: int, j: int|
            0 <= i < j < self.entries@.len() ==> #[trigger] self.entries@[i].0@
                != #[trigger] self.entries@[j].0@
    }

    /// An empty dictionary.
    pub fn new() -> (r: Self)
        ensures
            r.well_formed(),
            r@ == Map::<Seq<char>, Seq<char>>::empty(),
    {
        let r = MethodTable { entries: Vec::new() };
        assert(r@ =~= Map::<Seq<char>, Seq<char>>::empty());
        r
    }

    /// The position of the entry with the name `name`.
    fn position(&self, name: &String) -> (r: Option<usize>)
        ensures
            match r {
                Some(i) => entry_named(self.entries@, name@, i as int),
                None => forall|i: int| !entry_named(self.entries@, name@, i),
            },
    {
        let mut i: usize = 0;
        while i < self.entries.len()
            invariant
                i <= self.entries.len(),
                forall|j: int| 0 <= j < i ==> !entry_named(self.entries@, name@, j),
            decreases self.entries.len() - i,
        {
            if self.entries[i].0 == *name {
                return Some(i);
            }
            i += 1;
        }
        None
    }

    /// The function that carries out the method `name`.
    pub fn get(&self, name: &str) -> (r: Option<&str>)
        requires
            self.well_formed(),
        ensures
            match r {
                Some(function) => self@.dom().contains(name@) && self@[name@] == function@,
                None => !self@.dom().contains(name@),
            },
    {
        let name = name.to_owned();
        match self.position(&name) {
            Some(i) => {
                proof {
                    let j = choose|j: int| entry_named(self.entries@, name@, j);
                    assert(entry_named(self.entries@, name@, i as int));
                    assert(i == j);
                }
                Some(self.entries[i].1.as_str())
            },
            None => None,
        }
    }

    /// Lets `function` carry out the method `name`.
    pub fn set(&mut self, name: &str, function: &str)
        requires
            old(self).well_formed(),
        ensures
            final(self).well_formed(),
            final(self)@ == old(self)@.insert(name@, function@),
    {
        let name = name.to_owned();
        let function = function.to_owned();
        let ghost before = self.entries@;
        match self.position(&name) {
            Some(i) => {
                self.entries.set(i, (name, function));
                proof {
                    lemma_set(before, self.entries@, name@, i as int);
                }
            },
            None => {
                self.entries.push((name, function));
                proof {
                    lemma_set(before, self.entries@, name@, before.len() as int);
                }
            },
        }
    }
}

/// What an entry for `name` at the position `i` does to the names of the entries.
proof fn lemma_set(
    before: Seq<(String, String)>,
    after: Seq<(String, String)>,
    name: Seq<char>,
    i: int,
)
    requires
        0 <= i < after.len(),
        after[i].0@ == name,
        i < before.len() ==> entry_named(before, name, i) && after.len() == before.len(),
        i == before.len() ==> after.len() == before.len() + 1 && forall|j: int|
            !entry_named(before, name, j),
        i <= before.len(),
        forall|j: int| 0 <= j < before.len() && j != i ==> after[j] == before[j],
        forall|j: int, k: int|
            0 <= j < k < before.len() ==> #[trigger] before[j].0@ != #[trigger] before[k].0@,
    ensures
        forall|j: int, k: int|
            0 <= j < k < after.len() ==> #[trigger] after[j].0@ != #[trigger] after[k].0@,
        dictionary(after) == dictionary(before).insert(name, after[i].1@),
{
    assert(entry_named(after, name, i));
    assert forall|j: int, k: int| 0 <= j < k < after.len() implies #[trigger] after[j].0@
        != #[trigger] after[k].0@ by {
        assert(!entry_named(before, name, j) || j == i);
        assert(!entry_named(before, name, k) || k == i);
    }
    assert forall|other: Seq<char>, j: int| other != name implies (#[trigger] entry_named(
        after,
        other,
        j,
    ) <==> entry_named(before, other, j)) by {
        assert(entry_named(before, other, j) ==> !entry_named(before, name, j));
    }
    let a = dictionary(after);
    let b = dictionary(before).insert(name, after[i].1@);
    assert forall|other: Seq<char>| a.dom().contains(other) <==> b.dom().contains(other) by {
        if other != name {
            if a.dom().contains(other) {
                let j = choose|j: int| entry_named(after, other, j);
                assert(entry_named(before, other, j));
            }
            if b.dom().contains(other) {
                let j = choose|j: int| entry_named(before, other, j);
                assert(entry_named(after, other, j));
            }
        }
    }
    assert forall|other: Seq<char>| a.dom().contains(other) implies a[other] == b[other] by {
        let j = choose|j: int| entry_named(after, other, j);
        assert(entry_named(after, other, j));
        if other == name {
            assert(j == i);
        } else {
            assert(entry_named(before, other, j));
            let k = choose|k: int| entry_named(before, other, k);
            assert(entry_named(before, other, k));
            assert(j == k);
        }
    }
    assert(a =~= b);
}

/// The class of an object: its methods, and the functions behind its special behaviour.
pub struct PyClass {
    pub methods: MethodTable,
    pub slots: MethodTable,
}

impl PyClass {
    /// Both dictionaries are well-formed.
    pub open spec fn well_formed(&self) -> bool {
        self.methods.well_formed() && self.slots.well_formed()
    }

    /// A class without methods.
    pub fn new() -> (r: Self)
        ensures
            r.well_formed(),
            r.methods@ == Map::<Seq<char>, Seq<char>>::empty(),
            r.slots@ == Map::<Seq<char>, Seq<char>>::empty(),
    {
        PyClass { methods: MethodTable::new(), slots: MethodTable::new() }
    }
}

/// The classes that the byte array needs.
pub struct PyContext {
    pub bytearray_type: PyClass,
    pub bytearray_iterator_type: PyClass,
}

impl PyContext {
    /// Both classes are well-formed.
    pub open spec fn well_formed(&self) -> bool {
        self.bytearray_type.well_formed() && self.bytearray_iterator_type.well_formed()
    }

    /// The classes without their methods.
    pub fn new() -> (r: Self)
        ensures
            r.well_formed(),
            r.bytearray_type.methods@ == Map::<Seq<char>, Seq<char>>::empty(),
            r.bytearray_type.slots@ == Map::<Seq<char>, Seq<char>>::empty(),
            r.bytearray_iterator_type.methods@ == Map::<Seq<char>, Seq<char>>::empty(),
            r.bytearray_iterator_type.slots@ == Map::<Seq<char>, Seq<char>>::empty(),
    {
        PyContext { bytearray_type: PyClass::new(), bytearray_iterator_type: PyClass::new() }
    }
}

/// `m` with the entries of `table` added, one after the other.
pub open spec fn extended(
    m: Map<Seq<char>, Seq<char>>,
    table: Seq<(Seq<char>, Seq<char>)>,
) -> Map<Seq<char>, Seq<char>>
    decreases table.len(),
{
    if table.len() == 0 {
        m
    } else {
        extended(m, table.drop_last()).insert(table.last().0, table.last().1)
    }
}

/// The methods of the byte array, each with the function that carries it out: one of `PyByteArray`,
/// or of `PyBytesInner` for `maketrans`. What `decode` names stands outside this library, with the
/// codecs that it runs.
pub open spec fn bytearray_methods() -> Seq<(Seq<char>, Seq<char>)> {
    seq![
        ("__repr__"@, "repr"@),
        ("__len__"@, "len"@),
        ("__sizeof__"@, "sizeof"@),
        ("__add__"@, "add"@),
        ("__contains__"@, "contains"@),
        ("__setitem__"@, "setitem"@),
        ("__iadd__"@, "iadd"@),
        ("__getitem__"@, "getitem"@),
        ("__delitem__"@, "delitem"@),
        ("pop"@, "pop"@),
        ("insert"@, "insert"@),
        ("append"@, "append"@),
        ("remove"@, "remove"@),
        ("extend"@, "extend"@),
        ("isalnum"@, "isalnum"@),
        ("isalpha"@, "isalpha"@),
        ("isascii"@, "isascii"@),
        ("isdigit"@, "isdigit"@),
        ("islower"@, "islower"@),
        ("isspace"@, "isspace"@),
        ("isupper"@, "isupper"@),
        ("istitle"@, "istitle"@),
        ("lower"@, "lower"@),
        ("upper"@, "upper"@),
        ("capitalize"@, "capitalize"@),
        ("swapcase"@, "swapcase"@),
        ("hex"@, "hex"@),
        ("fromhex"@, "fromhex"@),
        ("center"@, "center"@),
        ("ljust"@, "ljust"@),
        ("rjust"@, "rjust"@),
        ("count"@, "count"@),
        ("join"@, "join"@),
        ("endswith"@, "endswith"@),
        ("startswith"@, "startswith"@),
        ("find"@, "find"@),
        ("index"@, "index"@),
        ("rfind"@, "rfind"@),
        ("rindex"@, "rindex"@),
        ("translate"@, "translate"@),
        ("strip"@, "strip"@),
        ("lstrip"@, "lstrip"@),
        ("rstrip"@, "rstrip"@),
        ("removeprefix"@, "removeprefix"@),
        ("removesuffix"@, "removesuffix"@),
        ("split"@, "split"@),
        ("rsplit"@, "rsplit"@),
        ("partition"@, "partition"@),
        ("rpartition"@, "rpartition"@),
        ("expandtabs"@, "expandtabs"@),
        ("splitlines"@, "splitlines"@),
        ("zfill"@, "zfill"@),
        ("replace"@, "replace"@),
        ("clear"@, "clear"@),
        ("copy"@, "copy"@),
        ("title"@, "title"@),
        ("__mul__"@, "mul"@),
        ("__rmul__"@, "mul"@),
        ("__imul__"@, "imul"@),
        ("__mod__"@, "modulo"@),
        ("__rmod__"@, "rmod"@),
        ("reverse"@, "reverse"@),
        ("decode"@, "decode"@),
        ("__reduce_ex__"@, "reduce_ex"@),
        ("__reduce__"@, "reduce"@),
        ("maketrans"@, "maketrans"@),
    ]
}

/// The special behaviour of the byte array, each with the function of `PyByteArray` that carries it
/// out.
pub open spec fn bytearray_slots() -> Seq<(Seq<char>, Seq<char>)> {
    seq![
        ("new"@, "tp_new"@),
        ("hash"@, "unhashable"@),
        ("richcompare"@, "cmp"@),
        ("buffer"@, "get_buffer"@),
        ("iter"@, "iter"@),
    ]
}

/// The special behaviour of the iterator of a byte array, with the function of `PyByteArrayIterator`
/// that carries it out.
pub open spec fn iterator_slots() -> Seq<(Seq<char>, Seq<char>)> {
    seq![("iternext"@, "next"@)]
}

/// The names in `table`.
spec fn names_of(table: Seq<(&'static str, &'static str)>) -> Seq<(Seq<char>, Seq<char>)> {
    Seq::new(table.len(), |i: int| (table[i].0@, table[i].1@))
}

/// The methods of the byte array.
fn bytearray_method_list() -> (r: Vec<(&'static str, &'static str)>)
    ensures
        names_of(r@) == bytearray_methods(),
{
    let r: Vec<(&'static str, &'static str)> = vec![
        ("__repr__", "repr"),
        ("__len__", "len"),
        ("__sizeof__", "sizeof"),
        ("__add__", "add"),
        ("__contains__", "contains"),
        ("__setitem__", "setitem"),
        ("__iadd__", "iadd"),
        ("__getitem__", "getitem"),
        ("__delitem__", "delitem"),
        ("pop", "pop"),
        ("insert", "insert"),
        ("append", "append"),
        ("remove", "remove"),
        ("extend", "extend"),
        ("isalnum", "isalnum"),
        ("isalpha", "isalpha"),
        ("isascii", "isascii"),
        ("isdigit", "isdigit"),
        ("islower", "islower"),
        ("isspace", "isspace"),
        ("isupper", "isupper"),
        ("istitle", "istitle"),
        ("lower", "lower"),
        ("upper", "upper"),
        ("capitalize", "capitalize"),
        ("swapcase", "swapcase"),
        ("hex", "hex"),
        ("fromhex", "fromhex"),
        ("center", "center"),
        ("ljust", "ljust"),
        ("rjust", "rjust"),
        ("count", "count"),
        ("join", "join"),
        ("endswith", "endswith"),
        ("startswith", "startswith"),
        ("find", "find"),
        ("index", "index"),
        ("rfind", "rfind"),
        ("rindex", "rindex"),
        ("translate", "translate"),
        ("strip", "strip"),
        ("lstrip", "lstrip"),
        ("rstrip", "rstrip"),
        ("removeprefix", "removeprefix"),
        ("removesuffix", "removesuffix"),
        ("split", "split"),
        ("rsplit", "rsplit"),
        ("partition", "partition"),
        ("rpartition", "rpartition"),
        ("expandtabs", "expandtabs"),
        ("splitlines", "splitlines"),
        ("zfill", "zfill"),
        ("replace", "replace"),
        ("clear", "clear"),
        ("copy", "copy"),
        ("title", "title"),
        ("__mul__", "mul"),
        ("__rmul__", "mul"),
        ("__imul__", "imul"),
        ("__mod__", "modulo"),
        ("__rmod__", "rmod"),
        ("reverse", "reverse"),
        ("decode", "decode"),
        ("__reduce_ex__", "reduce_ex"),
        ("__reduce__", "reduce"),
        ("maketrans", "maketrans"),
    ];
    assert(names_of(r@) =~= bytearray_methods());
    r
}

/// The special behaviour of the byte array.
fn bytearray_slot_list() -> (r: Vec<(&'static str, &'static str)>)
    ensures
        names_of(r@) == bytearray_slots(),
{
    let r: Vec<(&'static str, &'static str)> = vec![
        ("new", "tp_new"),
        ("hash", "unhashable"),
        ("richcompare", "cmp"),
        ("buffer", "get_buffer"),
        ("iter", "iter"),
    ];
    assert(names_of(r@) =~= bytearray_slots());
    r
}

/// Adds the entries of `table`.
fn extend_class(methods: &mut MethodTable, table: &Vec<(&'static str, &'static str)>)
    requires
        old(methods).well_formed(),
    ensures
        final(methods).well_formed(),
        final(methods)@ == extended(old(methods)@, names_of(table@)),
{
    let ghost m = methods@;
    let mut i: usize = 0;
    while i < table.len()
        invariant
            i <= table.len(),
            methods.well_formed(),
            methods@ == extended(m, names_of(table@).take(i as int)),
        decreases table.len() - i,
    {
        let (name, function) = table[i];
        methods.set(name, function);
        proof {
            let t = names_of(table@);
            assert(t.take(i + 1).drop_last() =~= t.take(i as int));
        }
        i += 1;
    }
    assert(names_of(table@).take(table@.len() as int) =~= names_of(table@));
}

/// Fills the dictionaries of the byte array class and of its iterator class.
pub fn init(context: &mut PyContext)
    requires
        old(context).well_formed(),
    ensures
        final(context).well_formed(),
        final(context).bytearray_type.methods@ == extended(
            old(context).bytearray_type.methods@,
            bytearray_methods(),
        ),
        final(context).bytearray_type.slots@ == extended(
            old(context).bytearray_type.slots@,
            bytearray_slots(),
        ),
        final(context).bytearray_iterator_type.methods@ == old(
            context,
        ).bytearray_iterator_type.methods@,
        final(context).bytearray_iterator_type.slots@ == extended(
            old(context).bytearray_iterator_type.slots@,
            iterator_slots(),
        ),
{
    extend_class(&mut context.bytearray_type.methods, &bytearray_method_list());
    extend_class(&mut context.bytearray_type.slots, &bytearray_slot_list());
    let iterator_list: Vec<(&'static str, &'static str)> = vec![("iternext", "next")];
    assert(names_of(iterator_list@) =~= iterator_slots());
    extend_class(&mut context.bytearray_iterator_type.slots, &iterator_list);
}

} // verus!
