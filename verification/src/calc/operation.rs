use vstd::prelude::*;

verus! {

/// Registry that manages operations for request dispatching, kept as a
/// contiguous list scanned in registration order.
#[derive(Clone)]
pub struct OperationRegistry<T> {
    operations: Vec<(String, T)>,
}

/// The operation registered first under `name`.
pub open spec fn registered<T>(ops: Seq<(Seq<char>, T)>, name: Seq<char>) -> Option<T>
    decreases ops.len(),
{
    if ops.len() == 0 {
        None
    } else if ops[0].0 == name {
        Some(ops[0].1)
    } else {
        registered(ops.drop_first(), name)
    }
}

/// `registered` is what a forward scan stopping at index `i` finds.
proof fn lemma_registered_at<T>(ops: Seq<(Seq<char>, T)>, name: Seq<char>, i: int)
    requires
        0 <= i <= ops.len(),
        forall|j: int| 0 <= j < i ==> (#[trigger] ops[j]).0 != name,
        i < ops.len() ==> ops[i].0 == name,
    ensures
        registered(ops, name) == (if i < ops.len() {
            Some(ops[i].1)
        } else {
            None::<T>
        }),
    decreases ops.len(),
{
    if ops.len() > 0 && i > 0 {
        assert(ops[0].0 != name);
        assert forall|j: int| 0 <= j < i - 1 implies (#[trigger] ops.drop_first()[j]).0 != name by {
            assert(ops.drop_first()[j] == ops[j + 1]);
        }
        lemma_registered_at(ops.drop_first(), name, i - 1);
    }
}

impl<T> View for OperationRegistry<T> {
    type V = Seq<(Seq<char>, T)>;

    closed spec fn view(&self) -> Seq<(Seq<char>, T)> {
        self.operations@.map_values(|p: (String, T)| (p.0@, p.1))
    }
}

impl<T> OperationRegistry<T> {
    pub fn new() -> (r: Self)
        ensures
            r@ == Seq::<(Seq<char>, T)>::empty(),
    {
        let r = Self { operations: Vec::with_capacity(4) };
        assert(r@ =~= Seq::<(Seq<char>, T)>::empty());
        r
    }

    /// Registers `op` under `name`, after the operations already registered.
    pub fn register(&mut self, name: &str, op: T)
        ensures
            final(self)@ == old(self)@.push((name@, op)),
    {
        let ghost before = self@;
        self.operations.push((String::from_str(name), op));
        assert(self@ =~= before.push((name@, op)));
    }

    /// Retrieve an operation by name with a linear scan over registered operations.
    pub fn get(&self, name: &str) -> (r: Option<&T>)
        ensures
            match r {
                Some(op) => registered(self@, name@) == Some(*op),
                None => registered(self@, name@) is None,
            },
    {
        let key = String::from_str(name);
        let ghost ops = self@;
        let mut i: usize = 0;
        while i < self.operations.len()
            invariant
                0 <= i <= self.operations@.len(),
                ops == self@,
                key@ == name@,
                forall|j: int| 0 <= j < i ==> (#[trigger] ops[j]).0 != name@,
            decreases self.operations@.len() - i,
        {
            assert(ops[i as int] == (self.operations@[i as int].0@, self.operations@[i as int].1));
            if self.operations[i].0 == key {
                proof {
                    lemma_registered_at(ops, name@, i as int);
                }
                return Some(&self.operations[i].1);
            }
            i = i + 1;
        }
        proof {
            lemma_registered_at(ops, name@, ops.len() as int);
        }
        None
    }
}

impl<T> Default for OperationRegistry<T> {
    fn default() -> (r: Self)
        ensures
            r@ == Seq::<(Seq<char>, T)>::empty(),
    {
        Self::new()
    }
}

} // verus!
