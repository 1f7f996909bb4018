//! Execution trace records, used to detect a model that does not replay the
//! same sequence of branching operations from one execution to the next.
use vstd::prelude::*;
use vstd::string::StringExecFns;

verus! {

/// References a specific tracked object in memory.
#[derive(Debug)]
pub struct TraceRef {
    pub index: usize,
    pub ty_name: String,
}

/// Represents an operation performed, potentially against a particular
/// object, at a known place in the source (`caller`).
#[derive(Debug)]
pub struct Trace {
    pub operation: String,
    pub entity: Option<TraceRef>,
    pub caller: Option<String>,
}

/// The value of a trace reference.
pub open spec fn trace_ref_view(r: TraceRef) -> (usize, Seq<char>) {
    (r.index, r.ty_name@)
}

/// Two trace records denote the same operation: same operation name, same
/// entity, and the same caller when both callers are known.
pub open spec fn trace_matches(a: Trace, b: Trace) -> bool {
    &&& a.operation@ == b.operation@
    &&& match (a.entity, b.entity) {
        (None, None) => true,
        (Some(x), Some(y)) => trace_ref_view(x) == trace_ref_view(y),
        _ => false,
    }
    &&& match (a.caller, b.caller) {
        (Some(x), Some(y)) => x@ == y@,
        _ => true,
    }
}

/// Two trace records hold the same text in every field.
pub open spec fn trace_same(a: Trace, b: Trace) -> bool {
    &&& a.operation@ == b.operation@
    &&& match (a.entity, b.entity) {
        (None, None) => true,
        (Some(x), Some(y)) => trace_ref_view(x) == trace_ref_view(y),
        _ => false,
    }
    &&& match (a.caller, b.caller) {
        (None, None) => true,
        (Some(x), Some(y)) => x@ == y@,
        _ => false,
    }
}

impl TraceRef {
    pub fn new(ty_name: &str, index: usize) -> (r: TraceRef)
        ensures
            r.index == index,
            r.ty_name@ == ty_name@,
    {
        TraceRef { index, ty_name: ty_name.to_owned() }
    }

    /// The same object under another type label.
    pub fn relabel(self, ty_name: &str) -> (r: TraceRef)
        ensures
            r.index == self.index,
            r.ty_name@ == ty_name@,
    {
        TraceRef { index: self.index, ty_name: ty_name.to_owned() }
    }

    pub fn clone(&self) -> (r: TraceRef)
        ensures
            trace_ref_view(r) == trace_ref_view(*self),
    {
        TraceRef { index: self.index, ty_name: self.ty_name.clone() }
    }

    pub fn eq(&self, other: &TraceRef) -> (r: bool)
        ensures
            r == (trace_ref_view(*self) == trace_ref_view(*other)),
    {
        self.index == other.index && self.ty_name == other.ty_name
    }
}

fn clone_opt_string(s: &Option<String>) -> (r: Option<String>)
    ensures
        r is Some <==> s is Some,
        r is Some ==> r->0@ == s->0@,
{
    match s {
        Some(x) => Some(x.clone()),
        None => None,
    }
}

impl Trace {
    /// A record for an internal operation bound to no entity and no caller.
    pub fn opaque(operation: &str) -> (r: Trace)
        ensures
            r.operation@ == operation@,
            r.entity is None,
            r.caller is None,
    {
        Trace { operation: operation.to_owned(), entity: None, caller: None }
    }

    /// A record with a known caller location and entity.
    pub fn new(operation: &str, caller: &str, entity: &TraceRef) -> (r: Trace)
        ensures
            r.operation@ == operation@,
            r.entity is Some && trace_ref_view(r.entity->0) == trace_ref_view(*entity),
            r.caller is Some && r.caller->0@ == caller@,
    {
        Trace {
            operation: operation.to_owned(),
            entity: Some(entity.clone()),
            caller: Some(caller.to_owned()),
        }
    }

    /// A record with a known caller location, bound to no entity.
    pub fn new_unbound(operation: &str, caller: &str) -> (r: Trace)
        ensures
            r.operation@ == operation@,
            r.entity is None,
            r.caller is Some && r.caller->0@ == caller@,
    {
        Trace { operation: operation.to_owned(), entity: None, caller: Some(caller.to_owned()) }
    }

    pub fn clone(&self) -> (r: Trace)
        ensures
            trace_same(r, *self),
    {
        let entity = match &self.entity {
            Some(e) => Some(e.clone()),
            None => None,
        };
        Trace { operation: self.operation.clone(), entity, caller: clone_opt_string(&self.caller) }
    }

    /// Compares two records; a missing caller matches any caller.
    pub fn eq(&self, other: &Trace) -> (r: bool)
        ensures
            r == trace_matches(*self, *other),
    {
        if !(self.operation == other.operation) {
            return false;
        }
        let entity_eq = match (&self.entity, &other.entity) {
            (None, None) => true,
            (Some(x), Some(y)) => x.eq(y),
            _ => false,
        };
        if !entity_eq {
            return false;
        }
        match (&self.caller, &other.caller) {
            (Some(x), Some(y)) => *x == *y,
            _ => true,
        }
    }

    /// This record bound to `entity`, unless it is already bound to one.
    pub fn with_ref(&self, entity: &TraceRef) -> (r: Trace)
        ensures
            r.operation@ == self.operation@,
            r.caller is Some <==> self.caller is Some,
            r.caller is Some ==> r.caller->0@ == self.caller->0@,
            self.entity is Some ==> trace_same(r, *self),
            self.entity is None ==> r.entity is Some && trace_ref_view(r.entity->0) == trace_ref_view(
                *entity,
            ),
    {
        if self.entity.is_some() {
            return self.clone();
        }
        Trace {
            operation: self.operation.clone(),
            entity: Some(entity.clone()),
            caller: clone_opt_string(&self.caller),
        }
    }

    /// This record bound to a manually built entity, unless it is already
    /// bound to one.
    pub fn with_custom_ref(&self, entity_ty: &str, index: usize) -> (r: Trace)
        ensures
            r.operation@ == self.operation@,
            r.caller is Some <==> self.caller is Some,
            r.caller is Some ==> r.caller->0@ == self.caller->0@,
            self.entity is Some ==> trace_same(r, *self),
            self.entity is None ==> r.entity is Some && r.entity->0.index == index
                && r.entity->0.ty_name@ == entity_ty@,
    {
        if self.entity.is_some() {
            return self.clone();
        }
        Trace {
            operation: self.operation.clone(),
            entity: Some(TraceRef::new(entity_ty, index)),
            caller: clone_opt_string(&self.caller),
        }
    }
}

/// The decimal digit `d`.
pub open spec fn digit_char(d: nat) -> char {
    if d == 0 {
        '0'
    } else if d == 1 {
        '1'
    } else if d == 2 {
        '2'
    } else if d == 3 {
        '3'
    } else if d == 4 {
        '4'
    } else if d == 5 {
        '5'
    } else if d == 6 {
        '6'
    } else if d == 7 {
        '7'
    } else if d == 8 {
        '8'
    } else {
        '9'
    }
}

/// The decimal text of `n`, without leading zeros.
pub open spec fn decimal_text(n: nat) -> Seq<char>
    decreases n,
{
    if n < 10 {
        seq![digit_char(n)]
    } else {
        decimal_text(n / 10).push(digit_char(n % 10))
    }
}

/// The text form of a trace reference: the type label, `::`, and the index.
pub open spec fn trace_ref_text(r: TraceRef) -> Seq<char> {
    r.ty_name@ + seq![':', ':'] + decimal_text(r.index as nat)
}

fn push_digit(s: &mut String, d: usize)
    requires
        d < 10,
    ensures
        final(s)@ == old(s)@.push(digit_char(d as nat)),
{
    let t: &str = match d {
        0 => "0",
        1 => "1",
        2 => "2",
        3 => "3",
        4 => "4",
        5 => "5",
        6 => "6",
        7 => "7",
        8 => "8",
        _ => "9",
    };
    proof {
        reveal_strlit("0");
        reveal_strlit("1");
        reveal_strlit("2");
        reveal_strlit("3");
        reveal_strlit("4");
        reveal_strlit("5");
        reveal_strlit("6");
        reveal_strlit("7");
        reveal_strlit("8");
        reveal_strlit("9");
    }
    s.append(t);
    proof {
        assert(final(s)@ =~= old(s)@.push(digit_char(d as nat)));
    }
}

fn push_decimal(s: &mut String, n: usize)
    ensures
        final(s)@ == old(s)@ + decimal_text(n as nat),
    decreases n,
{
    if n >= 10 {
        push_decimal(s, n / 10);
    }
    push_digit(s, n % 10);
    proof {
        if n >= 10 {
            assert(final(s)@ =~= old(s)@ + decimal_text(n as nat));
        } else {
            assert(final(s)@ =~= old(s)@ + decimal_text(n as nat));
        }
    }
}

impl TraceRef {
    /// The text form of the reference: the type label, `::`, and the index.
    pub fn text(&self) -> (r: String)
        ensures
            r@ == trace_ref_text(*self),
    {
        let mut s = self.ty_name.clone();
        s.append("::");
        proof {
            reveal_strlit("::");
        }
        push_decimal(&mut s, self.index);
        proof {
            assert(s@ =~= trace_ref_text(*self));
        }
        s
    }
}

} // verus!
