//! The symbol table: a mapping from symbol names to addresses, pre-seeded
//! with the fixed names of the machine.  Modelled as a `Map<Seq<char>, nat>`;
//! when a name is bound more than once the most recent binding wins, and
//! `bind` refuses to rebind so that a name is bound at most once.

use vstd::prelude::*;

use crate::chars::{chars_eq, str_to_chars};

verus! {

/// The mapping denoted by an association list; later entries shadow
/// earlier ones.
pub open spec fn map_of(s: Seq<(Seq<char>, nat)>) -> Map<Seq<char>, nat>
    decreases s.len(),
{
    if s.len() == 0 {
        Map::empty()
    } else {
        map_of(s.drop_last()).insert(s.last().0, s.last().1)
    }
}

/// The table contents fixed before any source text is read: the pointer
/// names, the sixteen registers, and the two device addresses.
pub open spec fn initial_table() -> Map<Seq<char>, nat> {
    Map::empty().insert("SP"@, 0nat).insert("LCL"@, 1nat).insert("ARG"@, 2nat).insert(
        "THIS"@,
        3nat,
    ).insert("THAT"@, 4nat).insert("R0"@, 0nat).insert("R1"@, 1nat).insert("R2"@, 2nat).insert(
        "R3"@,
        3nat,
    ).insert("R4"@, 4nat).insert("R5"@, 5nat).insert("R6"@, 6nat).insert("R7"@, 7nat).insert(
        "R8"@,
        8nat,
    ).insert("R9"@, 9nat).insert("R10"@, 10nat).insert("R11"@, 11nat).insert("R12"@, 12nat).insert(
        "R13"@,
        13nat,
    ).insert("R14"@, 14nat).insert("R15"@, 15nat).insert("SCREEN"@, 16384nat).insert(
        "KBD"@,
        24576nat,
    )
}

pub open spec fn entries_view(s: Seq<(Vec<char>, usize)>) -> Seq<(Seq<char>, nat)> {
    s.map_values(|e: (Vec<char>, usize)| (e.0@, e.1 as nat))
}

/// Symbol-to-address mapping, with the binding discipline of the two passes.
pub struct SymbolTable {
    entries: Vec<(Vec<char>, usize)>,
}

impl View for SymbolTable {
    type V = Map<Seq<char>, nat>;

    closed spec fn view(&self) -> Map<Seq<char>, nat> {
        map_of(entries_view(self.entries@))
    }
}

proof fn lemma_map_of_push(s: Seq<(Seq<char>, nat)>, e: (Seq<char>, nat))
    ensures
        map_of(s.push(e)) == map_of(s).insert(e.0, e.1),
{
    assert(s.push(e).drop_last() =~= s);
    assert(s.push(e).last() == e);
}

impl SymbolTable {
    fn seed(&mut self, name: &str, addr: usize)
        ensures
            final(self)@ == old(self)@.insert(name@, addr as nat),
    {
        let key = str_to_chars(name);
        let ghost prev = entries_view(self.entries@);
        self.entries.push((key, addr));
        proof {
            assert(entries_view(self.entries@) =~= prev.push((name@, addr as nat)));
            lemma_map_of_push(prev, (name@, addr as nat));
        }
    }

    /// A fresh table holding exactly the pre-seeded names.
    pub fn new() -> (t: SymbolTable)
        ensures
            t@ == initial_table(),
    {
        let mut t = SymbolTable { entries: Vec::new() };
        proof {
            assert(entries_view(t.entries@) =~= Seq::<(Seq<char>, nat)>::empty());
        }
        t.seed("SP", 0);
        t.seed("LCL", 1);
        t.seed("ARG", 2);
        t.seed("THIS", 3);
        t.seed("THAT", 4);
        t.seed("R0", 0);
        t.seed("R1", 1);
        t.seed("R2", 2);
        t.seed("R3", 3);
        t.seed("R4", 4);
        t.seed("R5", 5);
        t.seed("R6", 6);
        t.seed("R7", 7);
        t.seed("R8", 8);
        t.seed("R9", 9);
        t.seed("R10", 10);
        t.seed("R11", 11);
        t.seed("R12", 12);
        t.seed("R13", 13);
        t.seed("R14", 14);
        t.seed("R15", 15);
        t.seed("SCREEN", 16384);
        t.seed("KBD", 24576);
        t
    }

    /// The address bound to `name`, if any.
    pub fn get(&self, name: &Vec<char>) -> (r: Option<usize>)
        ensures
            match r {
                Some(a) => self@.contains_key(name@) && a as nat == self@[name@],
                None => !self@.contains_key(name@),
            },
    {
        let ghost all = entries_view(self.entries@);
        let mut i = self.entries.len();
        proof {
            assert(all.take(i as int) =~= all);
        }
        while i > 0
            invariant
                i <= self.entries.len(),
                all == entries_view(self.entries@),
                self@ == map_of(all),
                map_of(all).contains_key(name@) == map_of(all.take(i as int)).contains_key(name@),
                map_of(all).contains_key(name@) ==> map_of(all)[name@] == map_of(
                    all.take(i as int),
                )[name@],
            decreases i,
        {
            proof {
                assert(all.take(i as int).drop_last() =~= all.take(i as int - 1));
                assert(all.take(i as int).last() == all[i as int - 1]);
                assert(all[i as int - 1].0 == self.entries@[i as int - 1].0@);
            }
            let entry_key = &self.entries[i - 1].0;
            if chars_eq(entry_key, name) {
                let a = self.entries[i - 1].1;
                return Some(a);
            }
            i -= 1;
        }
        proof {
            assert(all.take(0) =~= Seq::<(Seq<char>, nat)>::empty());
        }
        None
    }

    /// Whether `name` is bound.
    pub fn contains(&self, name: &Vec<char>) -> (r: bool)
        ensures
            r == self@.contains_key(name@),
    {
        match self.get(name) {
            Some(_) => true,
            None => false,
        }
    }

    /// Binds `name` to `addr`; refuses a name that is already bound, so a
    /// binding is never overwritten.
    pub fn bind(&mut self, name: Vec<char>, addr: usize) -> (r: Result<(), ()>)
        ensures
            match r {
                Ok(()) => !old(self)@.contains_key(name@) && final(self)@ == old(self)@.insert(
                    name@,
                    addr as nat,
                ),
                Err(()) => old(self)@.contains_key(name@) && final(self)@ == old(self)@,
            },
    {
        if self.contains(&name) {
            return Err(());
        }
        let ghost prev = entries_view(self.entries@);
        self.entries.push((name, addr));
        proof {
            assert(entries_view(self.entries@) =~= prev.push(
                (self.entries@.last().0@, self.entries@.last().1 as nat),
            ));
            lemma_map_of_push(prev, (self.entries@.last().0@, self.entries@.last().1 as nat));
        }
        Ok(())
    }
}

} // verus!
