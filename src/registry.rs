use crate::codec::TransportRequest;
use crate::format::{Method, WireFormat};
use vstd::prelude::*;
use vstd::string::StringExecFns;

verus! {

/// A remote operation: the path it answers on and the formats of its input and output.
pub struct Operation {
    pub path: String,
    pub input: WireFormat,
    pub output: WireFormat,
}

impl Operation {
    /// An operation at `prefix/endpoint`.
    pub fn new(prefix: &str, endpoint: &str, input: WireFormat, output: WireFormat) -> (r: Operation)
        ensures
            r.path@ == prefix@ + "/"@ + endpoint@,
            r.input == input,
            r.output == output,
    {
        let path = prefix.to_owned().concat("/").concat(endpoint);
        Operation { path, input, output }
    }

    /// The method a call of this operation uses: the one its input format asks for.
    pub fn method(&self) -> (r: Method)
        ensures
            r == self.input.method,
    {
        self.input.method
    }

    /// Whether a request is a call of this operation: its path and method match.
    pub fn accepts(&self, req: &TransportRequest) -> (r: bool)
        ensures
            r == (req.path@ == self.path@ && req.method == self.input.method),
    {
        req.path == self.path && req.method == self.input.method
    }
}

/// The operations a server answers, each on a path of its own. Operations are registered
/// once, at startup, and never change afterwards.
pub struct Registry {
    ops: Vec<Operation>,
}

impl Registry {
    /// The registered paths, in the order of registration.
    pub closed spec fn paths(&self) -> Seq<Seq<char>> {
        self.ops@.map_values(|op: Operation| op.path@)
    }

    /// No path is registered twice.
    pub closed spec fn wf(&self) -> bool {
        forall|i: int, j: int|
            0 <= i < j < self.ops.len() ==> #[trigger] self.ops[i].path@ != #[trigger] self.ops[j].path@
    }

    pub fn new() -> (r: Registry)
        ensures
            r.wf(),
            r.paths().len() == 0,
    {
        Registry { ops: Vec::new() }
    }

    fn position(&self, path: &str) -> (r: Option<usize>)
        ensures
            r matches Some(i) ==> i < self.ops.len() && self.ops[i as int].path@ == path@,
            r is None ==> !self.paths().contains(path@),
    {
        let target = path.to_owned();
        let mut i: usize = 0;
        while i < self.ops.len()
            invariant
                0 <= i <= self.ops.len(),
                target@ == path@,
                forall|j: int| 0 <= j < i ==> self.ops[j].path@ != path@,
            decreases self.ops.len() - i,
        {
            if self.ops[i].path == target {
                return Some(i);
            }
            i = i + 1;
        }
        proof {
            if self.paths().contains(path@) {
                let k = choose|k: int| 0 <= k < self.paths().len() && self.paths()[k] == path@;
                assert(self.ops[k].path@ == path@);
            }
        }
        None
    }

    /// Registers an operation; refuses one whose path is taken, and hands it back.
    pub fn register(&mut self, op: Operation) -> (r: Result<(), Operation>)
        requires
            old(self).wf(),
        ensures
            final(self).wf(),
            old(self).paths().contains(op.path@) ==> r is Err && final(self).paths() == old(self).paths(),
            !old(self).paths().contains(op.path@) ==> r is Ok && final(self).paths() == old(self).paths().push(op.path@),
    {
        match self.position(op.path.as_str()) {
            Some(i) => {
                proof {
                    assert(self.paths()[i as int] == op.path@);
                }
                Err(op)
            },
            None => {
                let ghost before = self.ops@;
                let ghost p = op.path@;
                self.ops.push(op);
                proof {
                    assert(self.paths() =~= before.map_values(|o: Operation| o.path@).push(p));
                    assert forall|i: int, j: int|
                        0 <= i < j < self.ops.len() implies #[trigger] self.ops[i].path@
                        != #[trigger] self.ops[j].path@ by {
                        if j == self.ops.len() - 1 {
                            assert(before.map_values(|o: Operation| o.path@)[i] == self.ops[i].path@);
                        }
                    }
                }
                Ok(())
            },
        }
    }

    /// The operation registered on a path.
    pub fn lookup(&self, path: &str) -> (r: Option<&Operation>)
        ensures
            r matches Some(op) ==> op.path@ == path@,
            r is None <==> !self.paths().contains(path@),
    {
        match self.position(path) {
            Some(i) => {
                proof {
                    assert(self.paths()[i as int] == path@);
                }
                Some(&self.ops[i])
            },
            None => None,
        }
    }
}

} // verus!
