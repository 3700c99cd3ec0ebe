//! The control point: one tunable pseudo-file, its value and what may be done with it.
use vstd::prelude::*;

use crate::extract::Extractor;
use crate::text::{line_value, line_value_of, opt_string, opt_text};

verus! {

/// The set of operations allowed on a control point, over {read, write}.
#[derive(Clone, Copy, PartialEq, Eq, Structural, Debug)]
pub struct Permission {
    pub readable: bool,
    pub writable: bool,
}

impl Permission {
    /// Read only: what every control point has.
    pub fn read() -> (r: Permission)
        ensures
            r == (Permission { readable: true, writable: false }),
    {
        Permission { readable: true, writable: false }
    }

    /// Write only, to be added to a readable point.
    pub fn write() -> (r: Permission)
        ensures
            r == (Permission { readable: false, writable: true }),
    {
        Permission { readable: false, writable: true }
    }

    /// The union of two sets of operations.
    pub fn union(self, other: Permission) -> (r: Permission)
        ensures
            r.readable == (self.readable || other.readable),
            r.writable == (self.writable || other.writable),
    {
        Permission {
            readable: self.readable || other.readable,
            writable: self.writable || other.writable,
        }
    }
}

/// The value-level picture of a [`Config`].
pub struct ConfigView {
    pub node: Seq<char>,
    pub value: Option<Seq<char>>,
    pub permission: Permission,
    pub handler: Extractor,
}

/// One control point: the path of a pseudo-file, the value it read as
/// (`None` when it could not be read), its permission and its extractor.
#[derive(Clone, Debug)]
pub struct Config {
    pub node: String,
    pub value: Option<String>,
    pub permission: Permission,
    pub handler: Extractor,
}

impl View for Config {
    type V = ConfigView;

    open spec fn view(&self) -> ConfigView {
        ConfigView {
            node: self.node@,
            value: opt_string(self.value),
            permission: self.permission,
            handler: self.handler,
        }
    }
}

/// The value a point with extractor `handler` takes from what its file read
/// as (`None`: the read failed).
pub open spec fn read_value(handler: Extractor, content: Option<Seq<char>>) -> Option<Seq<char>> {
    match content {
        Some(c) => Some(handler.spec_extract(line_value_of(c))),
        None => None,
    }
}

pub open spec fn spec_writeable(c: ConfigView) -> bool {
    c.value is Some && c.permission.writable
}

/// What applying `c` writes to its node.
pub open spec fn write_text(c: ConfigView) -> Seq<char>
    recommends
        c.value is Some,
{
    c.handler.spec_extract(c.value->0)
}

/// The one way applying a point can fail before any write.
#[derive(Clone, Copy, PartialEq, Eq, Structural, Debug)]
pub enum ApplyError {
    /// The point holds no value, so there is nothing to write.
    NoValue,
}

/// `"+ "`
pub open spec fn plus_prefix() -> Seq<char> {
    seq!['+', ' ']
}

/// `"WARNING: can't read "`
pub open spec fn warning_prefix() -> Seq<char> {
    seq!['W', 'A', 'R', 'N', 'I', 'N', 'G', ':', ' ', 'c', 'a', 'n', '\'', 't', ' ', 'r', 'e', 'a', 'd', ' ']
}

/// The line that stands for the value of `c` in a snapshot.
pub open spec fn value_line(c: ConfigView) -> Seq<char> {
    match c.value {
        Some(v) => v,
        None => warning_prefix() + c.node,
    }
}

/// The two lines of `c` in a snapshot, without the final break.
pub open spec fn block_text(c: ConfigView) -> Seq<char> {
    plus_prefix() + c.node + seq!['\n'] + value_line(c)
}

impl Config {
    /// A readable point at `node` with the identity extractor; `content` is
    /// what the file read as, or `None` when it could not be read.
    pub fn new(node: &str, content: Option<&str>) -> (r: Config)
        ensures
            r@.node == node@,
            r@.value == read_value(Extractor::Identity, opt_text(content)),
            r@.permission == (Permission { readable: true, writable: false }),
            r@.handler == Extractor::Identity,
    {
        Config::new_with_handler(node, Extractor::Identity, content)
    }

    /// A readable point at `node` whose value `handler` takes from `content`.
    pub fn new_with_handler(node: &str, handler: Extractor, content: Option<&str>) -> (r: Config)
        ensures
            r@.node == node@,
            r@.value == read_value(handler, opt_text(content)),
            r@.permission == (Permission { readable: true, writable: false }),
            r@.handler == handler,
    {
        let value = match content {
            Some(c) => {
                let line = line_value(c);
                Some(handler.extract(line.as_str()))
            },
            None => None,
        };
        Config { node: String::from_str(node), value, permission: Permission::read(), handler }
    }

    /// This point with `perm` added to its permission.
    pub fn add_permission(self, perm: Permission) -> (r: Config)
        ensures
            r@.node == self@.node,
            r@.value == self@.value,
            r@.handler == self@.handler,
            r@.permission.readable == (self@.permission.readable || perm.readable),
            r@.permission.writable == (self@.permission.writable || perm.writable),
    {
        let mut c = self;
        c.permission = c.permission.union(perm);
        c
    }

    /// Whether the point may be written: it read as some value and is writable.
    pub fn writeable(&self) -> (r: bool)
        ensures
            r == spec_writeable(self@),
    {
        match &self.value {
            Some(_) => self.permission.writable,
            None => false,
        }
    }

    /// The text that applying this point writes to its node: its extractor
    /// applied to its value. A point without a value cannot be applied.
    pub fn apply(&self) -> (r: Result<String, ApplyError>)
        ensures
            self@.value is None <==> r == Err::<String, ApplyError>(ApplyError::NoValue),
            r matches Ok(t) ==> t@ == write_text(self@),
    {
        match &self.value {
            Some(v) => Ok(self.handler.extract(v.as_str())),
            None => Err(ApplyError::NoValue),
        }
    }

    /// A point with the node, permission and extractor of this one and the given value.
    pub fn with_value(&self, value: Option<String>) -> (r: Config)
        ensures
            r@ == (ConfigView { value: opt_string(value), ..self@ }),
    {
        Config {
            node: self.node.clone(),
            value,
            permission: self.permission,
            handler: self.handler,
        }
    }

    /// The record of this point in a snapshot: `+ <node>`, a break, then its
    /// value or, when it has none, `WARNING: can't read <node>`.
    pub fn to_text(&self) -> (r: String)
        ensures
            r@ == block_text(self@),
    {
        let mut s = String::from_str("+ ");
        s.append(self.node.as_str());
        s.append("\n");
        match &self.value {
            Some(v) => s.append(v.as_str()),
            None => {
                s.append("WARNING: can't read ");
                s.append(self.node.as_str());
            },
        }
        proof {
            reveal_strlit("+ ");
            reveal_strlit("\n");
            reveal_strlit("WARNING: can't read ");
            assert(s@ =~= block_text(self@));
        }
        s
    }
}

} // verus!
