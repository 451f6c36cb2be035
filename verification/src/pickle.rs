//! The value model of the pickle side: a closed tagged union of decoded
//! values, a mathematical view of it, and the narrowing conversions that
//! consumers use to take typed data out of a decoded graph.
//!
//! Dictionaries are kept as insertion-ordered association vectors whose
//! keys are decoded strings; storing under an existing key replaces the
//! value in place, as [`assoc_set`] states.

use vstd::prelude::*;

verus! {

use crate::pickle_ops::PickleError;

/// One decoded pickle value.  `Number` carries floats as raw IEEE-754 bit
/// patterns so that the model stays purely integral; converting the bits to
/// a floating value is the caller's business.
#[derive(Debug)]
pub enum Pickle {
    NoneVal,
    Bool(bool),
    Number(PickleNumber),
    String(String),
    Binary(Vec<u8>),
    List(Vec<Pickle>),
    Dict(Vec<(String, Pickle)>),
    Tuple(Vec<Pickle>),
    Module(PickleModule),
    Class(PickleClass),
}

#[derive(Debug)]
pub enum PickleNumber {
    Int(i64),
    Uint(u64),
    /// Raw bits of a 64-bit IEEE-754 value.
    FloatBits(u64),
    BigInt(Vec<u8>),
}

/// A reference to a named item of a module.
#[derive(Debug)]
pub struct PickleModule {
    pub module: String,
    pub name: String,
}

/// A constructed class instance: the module reference it was built from,
/// its construction arguments, an optional later-attached state value, and
/// named fields added by item-setting operations.
#[derive(Debug)]
pub struct PickleClass {
    pub module: PickleModule,
    pub args: Box<Pickle>,
    pub state: Option<Box<Pickle>>,
    pub data: Vec<(String, Pickle)>,
}

/// Mathematical model of a [`Pickle`] value: strings become character
/// sequences, vectors become sequences.
#[verifier::ext_equal]
pub enum PickleVal {
    NoneVal,
    Bool(bool),
    Int(i64),
    Uint(u64),
    FloatBits(u64),
    BigInt(Seq<u8>),
    Str(Seq<char>),
    Binary(Seq<u8>),
    List(Seq<PickleVal>),
    Dict(Seq<(Seq<char>, PickleVal)>),
    Tuple(Seq<PickleVal>),
    Module(Seq<char>, Seq<char>),
    Class(ClassVal),
}

#[verifier::ext_equal]
pub struct ClassVal {
    pub module: Seq<char>,
    pub name: Seq<char>,
    pub args: Box<PickleVal>,
    pub state: Option<Box<PickleVal>>,
    pub data: Seq<(Seq<char>, PickleVal)>,
}

impl PickleModule {
    pub open spec fn deep_view(&self) -> (Seq<char>, Seq<char>) {
        (self.module@, self.name@)
    }

    pub fn new(module: String, name: String) -> (r: Self)
        ensures
            r.module == module,
            r.name == name,
    {
        PickleModule { module, name }
    }

    /// Build a class instance of this module reference from an argument value.
    pub fn class(&self, args: Pickle) -> (r: PickleClass)
        ensures
            r.deep_view() == (ClassVal {
                module: self.module@,
                name: self.name@,
                args: Box::new(args.deep_view()),
                state: None,
                data: Seq::empty(),
            }),
    {
        PickleClass::new(PickleModule { module: clone_string(&self.module), name: clone_string(&self.name) }, args)
    }
}

impl PickleClass {
    pub open spec fn deep_view(&self) -> ClassVal
        decreases self,
    {
        ClassVal {
            module: self.module.module@,
            name: self.module.name@,
            args: Box::new((*self.args).deep_view()),
            state: match self.state {
                Some(ref s) => Some(Box::new((**s).deep_view())),
                None => None,
            },
            data: dict_view(self.data@),
        }
    }

    pub fn new(module: PickleModule, args: Pickle) -> (r: Self)
        ensures
            r.deep_view() == (ClassVal {
                module: module.module@,
                name: module.name@,
                args: Box::new(args.deep_view()),
                state: None,
                data: Seq::empty(),
            }),
    {
        let r = PickleClass { module, args: Box::new(args), state: None, data: Vec::new() };
        proof {
            assert(r.deep_view().data =~= Seq::<(Seq<char>, PickleVal)>::empty());
        }
        r
    }
}

impl Pickle {
    /// The mathematical value this node stands for.
    pub open spec fn deep_view(&self) -> PickleVal
        decreases self,
    {
        match self {
            Pickle::NoneVal => PickleVal::NoneVal,
            Pickle::Bool(b) => PickleVal::Bool(*b),
            Pickle::Number(PickleNumber::Int(v)) => PickleVal::Int(*v),
            Pickle::Number(PickleNumber::Uint(v)) => PickleVal::Uint(*v),
            Pickle::Number(PickleNumber::FloatBits(v)) => PickleVal::FloatBits(*v),
            Pickle::Number(PickleNumber::BigInt(v)) => PickleVal::BigInt(v@),
            Pickle::String(s) => PickleVal::Str(s@),
            Pickle::Binary(v) => PickleVal::Binary(v@),
            Pickle::List(v) => PickleVal::List(seq_view(v@)),
            Pickle::Dict(d) => PickleVal::Dict(dict_view(d@)),
            Pickle::Tuple(v) => PickleVal::Tuple(seq_view(v@)),
            Pickle::Module(m) => PickleVal::Module(m.module@, m.name@),
            Pickle::Class(c) => PickleVal::Class(c.deep_view()),
        }
    }
}

/// Model of a vector of pickle values, element by element.
pub open spec fn seq_view(s: Seq<Pickle>) -> Seq<PickleVal>
    decreases s,
{
    if s.len() == 0 {
        Seq::empty()
    } else {
        seq_view(s.subrange(0, s.len() - 1)).push(s[s.len() - 1].deep_view())
    }
}

/// Model of an association vector, pair by pair.
pub open spec fn dict_view(s: Seq<(String, Pickle)>) -> Seq<(Seq<char>, PickleVal)>
    decreases s,
{
    if s.len() == 0 {
        Seq::empty()
    } else {
        dict_view(s.subrange(0, s.len() - 1)).push(
            (s[s.len() - 1].0@, s[s.len() - 1].1.deep_view()),
        )
    }
}

/// `seq_view` is the element-by-element image of its argument.
pub proof fn lemma_seq_view(s: Seq<Pickle>)
    ensures
        seq_view(s).len() == s.len(),
        forall|i: int| 0 <= i < s.len() ==> #[trigger] seq_view(s)[i] == s[i].deep_view(),
    decreases s.len(),
{
    if s.len() > 0 {
        lemma_seq_view(s.subrange(0, s.len() - 1));
        assert forall|i: int| 0 <= i < s.len() implies #[trigger] seq_view(s)[i] == s[i]
            .deep_view() by {
            if i < s.len() - 1 {
                assert(s.subrange(0, s.len() - 1)[i] == s[i]);
            }
        }
    }
}

/// `dict_view` is the pair-by-pair image of its argument.
pub proof fn lemma_dict_view(s: Seq<(String, Pickle)>)
    ensures
        dict_view(s).len() == s.len(),
        forall|i: int|
            0 <= i < s.len() ==> #[trigger] dict_view(s)[i] == (s[i].0@, s[i].1.deep_view()),
    decreases s.len(),
{
    if s.len() > 0 {
        lemma_dict_view(s.subrange(0, s.len() - 1));
        assert forall|i: int| 0 <= i < s.len() implies #[trigger] dict_view(s)[i] == (s[i].0@,
        s[i].1.deep_view()) by {
            if i < s.len() - 1 {
                assert(s.subrange(0, s.len() - 1)[i] == s[i]);
            }
        }
    }
}

/// Appending one value appends its model.
pub proof fn lemma_seq_view_push(s: Seq<Pickle>, x: Pickle)
    ensures
        seq_view(s.push(x)) == seq_view(s).push(x.deep_view()),
{
    assert(s.push(x).subrange(0, s.push(x).len() - 1) =~= s);
    assert(seq_view(s.push(x)) == seq_view(s).push(x.deep_view()));
}

/// The model of a concatenation is the concatenation of the models.
pub proof fn lemma_seq_view_concat(a: Seq<Pickle>, b: Seq<Pickle>)
    ensures
        seq_view(a + b) == seq_view(a) + seq_view(b),
{
    lemma_seq_view(a);
    lemma_seq_view(b);
    lemma_seq_view(a + b);
    assert forall|i: int| 0 <= i < a.len() + b.len() implies #[trigger] seq_view(a + b)[i] == (
    seq_view(a) + seq_view(b))[i] by {
        if i < a.len() {
            assert((a + b)[i] == a[i]);
        } else {
            assert((a + b)[i] == b[i - a.len()]);
        }
    }
    assert(seq_view(a + b) =~= seq_view(a) + seq_view(b));
}

/// Sequences with the same element models have the same model.
pub proof fn lemma_seq_view_congruence(a: Seq<Pickle>, b: Seq<Pickle>)
    requires
        a.len() == b.len(),
        forall|i: int| 0 <= i < a.len() ==> a[i].deep_view() == #[trigger] b[i].deep_view(),
    ensures
        seq_view(a) == seq_view(b),
{
    lemma_seq_view(a);
    lemma_seq_view(b);
    assert(seq_view(a) =~= seq_view(b));
}

/// Association vectors with the same keys and element models have the same model.
pub proof fn lemma_dict_view_congruence(a: Seq<(String, Pickle)>, b: Seq<(String, Pickle)>)
    requires
        a.len() == b.len(),
        forall|i: int|
            0 <= i < a.len() ==> a[i].0@ == #[trigger] b[i].0@ && a[i].1.deep_view()
                == b[i].1.deep_view(),
    ensures
        dict_view(a) == dict_view(b),
{
    lemma_dict_view(a);
    lemma_dict_view(b);
    assert(dict_view(a) =~= dict_view(b));
}

/// Copy a string; vstd knows the copy keeps the characters.
pub fn clone_string(s: &String) -> (r: String)
    ensures
        r@ == s@,
{
    s.clone()
}

/// Copy a byte vector element by element.
pub fn clone_bytes(v: &Vec<u8>) -> (r: Vec<u8>)
    ensures
        r@ == v@,
{
    let mut out: Vec<u8> = Vec::new();
    let mut i: usize = 0;
    while i < v.len()
        invariant
            i <= v@.len(),
            out@ == v@.subrange(0, i as int),
        decreases v@.len() - i,
    {
        out.push(v[i]);
        proof {
            assert(out@ =~= v@.subrange(0, i + 1));
        }
        i = i + 1;
    }
    proof {
        assert(out@ =~= v@);
    }
    out
}

impl Pickle {
    /// Structure-preserving copy: the duplicate has the same mathematical
    /// value as the original.
    pub fn duplicate(&self) -> (r: Pickle)
        ensures
            r.deep_view() == self.deep_view(),
        decreases self,
    {
        match self {
            Pickle::NoneVal => Pickle::NoneVal,
            Pickle::Bool(b) => Pickle::Bool(*b),
            Pickle::Number(PickleNumber::Int(v)) => Pickle::Number(PickleNumber::Int(*v)),
            Pickle::Number(PickleNumber::Uint(v)) => Pickle::Number(PickleNumber::Uint(*v)),
            Pickle::Number(PickleNumber::FloatBits(v)) => Pickle::Number(
                PickleNumber::FloatBits(*v),
            ),
            Pickle::Number(PickleNumber::BigInt(v)) => Pickle::Number(
                PickleNumber::BigInt(clone_bytes(v)),
            ),
            Pickle::String(s) => Pickle::String(clone_string(s)),
            Pickle::Binary(v) => Pickle::Binary(clone_bytes(v)),
            Pickle::List(v) => {
                let out = duplicate_vec(v);
                proof {
                    lemma_seq_view_congruence(out@, v@);
                }
                Pickle::List(out)
            },
            Pickle::Dict(d) => {
                let out = duplicate_dict(d);
                proof {
                    lemma_dict_view_congruence(out@, d@);
                }
                Pickle::Dict(out)
            },
            Pickle::Tuple(v) => {
                let out = duplicate_vec(v);
                proof {
                    lemma_seq_view_congruence(out@, v@);
                }
                Pickle::Tuple(out)
            },
            Pickle::Module(m) => Pickle::Module(
                PickleModule { module: clone_string(&m.module), name: clone_string(&m.name) },
            ),
            Pickle::Class(c) => {
                let state: Option<Box<Pickle>> = match &c.state {
                    Some(s) => Some(Box::new((*s).duplicate())),
                    None => None,
                };
                let data = duplicate_dict(&c.data);
                proof {
                    lemma_dict_view_congruence(data@, c.data@);
                }
                Pickle::Class(
                    PickleClass {
                        module: PickleModule {
                            module: clone_string(&c.module.module),
                            name: clone_string(&c.module.name),
                        },
                        args: Box::new((*c.args).duplicate()),
                        state,
                        data,
                    },
                )
            },
        }
    }
}

fn duplicate_vec(v: &Vec<Pickle>) -> (r: Vec<Pickle>)
    ensures
        r@.len() == v@.len(),
        forall|i: int| 0 <= i < v@.len() ==> r@[i].deep_view() == v@[i].deep_view(),
    decreases v,
{
    let mut out: Vec<Pickle> = Vec::new();
    let mut i: usize = 0;
    while i < v.len()
        invariant
            i <= v@.len(),
            out@.len() == i,
            forall|j: int| 0 <= j < i ==> out@[j].deep_view() == v@[j].deep_view(),
        decreases v@.len() - i,
    {
        out.push(v[i].duplicate());
        i = i + 1;
    }
    out
}

fn duplicate_dict(d: &Vec<(String, Pickle)>) -> (r: Vec<(String, Pickle)>)
    ensures
        r@.len() == d@.len(),
        forall|i: int|
            0 <= i < d@.len() ==> r@[i].0@ == d@[i].0@ && r@[i].1.deep_view()
                == d@[i].1.deep_view(),
    decreases d,
{
    let mut out: Vec<(String, Pickle)> = Vec::new();
    let mut i: usize = 0;
    while i < d.len()
        invariant
            i <= d@.len(),
            out@.len() == i,
            forall|j: int|
                0 <= j < i ==> out@[j].0@ == d@[j].0@ && out@[j].1.deep_view()
                    == d@[j].1.deep_view(),
        decreases d@.len() - i,
    {
        let (k, val) = &d[i];
        out.push((clone_string(k), val.duplicate()));
        i = i + 1;
    }
    out
}

/// First index bound to key `k`, or `-1` when the key is absent.
pub open spec fn assoc_first<V>(d: Seq<(Seq<char>, V)>, k: Seq<char>) -> int
    decreases d.len(),
{
    if d.len() == 0 {
        -1
    } else if d[0].0 == k {
        0
    } else {
        let r = assoc_first(d.subrange(1, d.len() as int), k);
        if r < 0 {
            -1
        } else {
            r + 1
        }
    }
}

/// The value bound to key `k`, if any.
pub open spec fn assoc_get<V>(d: Seq<(Seq<char>, V)>, k: Seq<char>) -> Option<V> {
    if assoc_first(d, k) >= 0 {
        Some(d[assoc_first(d, k)].1)
    } else {
        None
    }
}

/// Bind key `k` to `v`: replace the first binding of `k` in place, or
/// append a new one when the key is absent.
pub open spec fn assoc_set<V>(d: Seq<(Seq<char>, V)>, k: Seq<char>, v: V) -> Seq<
    (Seq<char>, V),
> {
    if assoc_first(d, k) >= 0 {
        d.update(assoc_first(d, k), (k, v))
    } else {
        d.push((k, v))
    }
}

/// `assoc_first` finds exactly the least index whose key is `k`.
pub proof fn lemma_assoc_first<V>(d: Seq<(Seq<char>, V)>, k: Seq<char>)
    ensures
        assoc_first(d, k) == -1 ==> forall|i: int| 0 <= i < d.len() ==> (#[trigger] d[i].0) != k,
        assoc_first(d, k) >= 0 ==> assoc_first(d, k) < d.len() && d[assoc_first(d, k)].0 == k
            && forall|i: int| 0 <= i < assoc_first(d, k) ==> (#[trigger] d[i].0) != k,
    decreases d.len(),
{
    if d.len() > 0 && d[0].0 != k {
        let t = d.subrange(1, d.len() as int);
        lemma_assoc_first(t, k);
        if assoc_first(d, k) == -1 {
            assert forall|i: int| 0 <= i < d.len() implies (#[trigger] d[i].0) != k by {
                if i >= 1 {
                    assert(t[i - 1] == d[i]);
                    assert(t[i - 1].0 != k);
                }
            }
        } else {
            assert(d[assoc_first(d, k)] == t[assoc_first(t, k)]);
            assert forall|i: int| 0 <= i < assoc_first(d, k) implies (#[trigger] d[i].0) != k by {
                if i >= 1 {
                    assert(t[i - 1] == d[i]);
                    assert(t[i - 1].0 != k);
                }
            }
        }
    }
}

impl Pickle {
    /// Store `value` under `key`: the first binding of an equal key is
    /// replaced, otherwise the pair is appended.  Applies only to `Dict`
    /// nodes; the caller matches first.
    pub fn dict_set(dict: &mut Vec<(String, Pickle)>, key: String, value: Pickle)
        ensures
            dict_view(final(dict)@) == assoc_set(dict_view(old(dict)@), key@, value.deep_view()),
    {
        proof {
            lemma_dict_view(dict@);
            lemma_assoc_first(dict_view(dict@), key@);
        }
        let ghost d0 = dict_view(dict@);
        let mut i: usize = 0;
        while i < dict.len()
            invariant
                i <= dict@.len(),
                dict@ == old(dict)@,
                d0 == dict_view(dict@),
                dict_view(dict@).len() == dict@.len(),
                forall|j: int| 0 <= j < dict@.len() ==> #[trigger] dict_view(dict@)[j] == (
                dict@[j].0@, dict@[j].1.deep_view()),
                forall|j: int| 0 <= j < i ==> (#[trigger] dict@[j].0)@ != key@,
            decreases dict@.len() - i,
        {
            if string_eq(&dict[i].0, &key) {
                proof {
                    lemma_assoc_first_found(d0, key@, i as int);
                }
                let ghost pre = dict@;
                let ghost k0 = key@;
                let ghost v0 = value.deep_view();
                dict.set(i, (key, value));
                proof {
                    lemma_dict_view(dict@);
                    assert(dict@[i as int].0@ == k0);
                    assert(dict@[i as int].1.deep_view() == v0);
                    assert forall|j: int| 0 <= j < dict@.len() implies #[trigger] dict_view(
                        dict@,
                    )[j] == assoc_set(d0, k0, v0)[j] by {
                        if j != i {
                            assert(dict@[j] == pre[j]);
                            assert(dict_view(pre)[j] == (pre[j].0@, pre[j].1.deep_view()));
                        }
                    }
                    assert(dict_view(dict@) =~= assoc_set(d0, k0, v0));
                }
                return ;
            }
            i = i + 1;
        }
        proof {
            lemma_assoc_first(d0, key@);
            if assoc_first(d0, key@) >= 0 {
                assert(d0[assoc_first(d0, key@)].0 == key@);
                assert(false);
            }
        }
        dict.push((key, value));
        proof {
            lemma_dict_view(dict@);
            assert(dict_view(dict@) =~= assoc_set(d0, dict@[dict@.len() - 1].0@, dict@[dict@.len()
                - 1].1.deep_view()));
        }
    }

    /// Look up `key`, returning a reference to the first bound value.
    pub fn dict_get<'a>(dict: &'a Vec<(String, Pickle)>, key: &str) -> (r: Option<&'a Pickle>)
        ensures
            match r {
                Some(p) => assoc_get(dict_view(dict@), key@) == Some(p.deep_view()),
                None => assoc_get(dict_view(dict@), key@) is None,
            },
    {
        proof {
            lemma_dict_view(dict@);
        }
        let ghost d0 = dict_view(dict@);
        let mut i: usize = 0;
        while i < dict.len()
            invariant
                i <= dict@.len(),
                d0 == dict_view(dict@),
                dict_view(dict@).len() == dict@.len(),
                forall|j: int| 0 <= j < dict@.len() ==> #[trigger] dict_view(dict@)[j] == (
                dict@[j].0@, dict@[j].1.deep_view()),
                forall|j: int| 0 <= j < i ==> (#[trigger] dict@[j].0)@ != key@,
            decreases dict@.len() - i,
        {
            if str_eq_string(key, &dict[i].0) {
                proof {
                    lemma_assoc_first_found(d0, key@, i as int);
                }
                return Some(&dict[i].1);
            }
            i = i + 1;
        }
        proof {
            lemma_assoc_first(d0, key@);
            if assoc_first(d0, key@) >= 0 {
                assert(d0[assoc_first(d0, key@)].0 == key@);
                assert(false);
            }
        }
        None
    }
}

/// When index `i` holds key `k` and no earlier index does, `assoc_first`
/// returns exactly `i`.
pub proof fn lemma_assoc_first_found<V>(d: Seq<(Seq<char>, V)>, k: Seq<char>, i: int)
    requires
        0 <= i < d.len(),
        d[i].0 == k,
        forall|j: int| 0 <= j < i ==> (#[trigger] d[j].0) != k,
    ensures
        assoc_first(d, k) == i,
    decreases d.len(),
{
    if i > 0 {
        lemma_assoc_first_found(d.subrange(1, d.len() as int), k, i - 1);
        assert(forall|j: int|
            1 <= j < d.len() ==> d[j] == #[trigger] d.subrange(1, d.len() as int)[j - 1]);
        assert(d.subrange(1, d.len() as int)[i - 1] == d[i]);
    }
}

/// Compare two strings character for character.
pub fn string_eq(a: &String, b: &String) -> (r: bool)
    ensures
        r == (a@ == b@),
{
    a.eq(b)
}

/// Compare two string slices character for character.
pub fn str_eq(a: &str, b: &str) -> (r: bool)
    ensures
        r == (a@ == b@),
{
    let n = a.unicode_len();
    if n != b.unicode_len() {
        return false;
    }
    let mut i: usize = 0;
    while i < n
        invariant
            n == a@.len(),
            n == b@.len(),
            i <= n,
            forall|j: int| 0 <= j < i ==> a@[j] == b@[j],
        decreases n - i,
    {
        if a.get_char(i) != b.get_char(i) {
            return false;
        }
        i = i + 1;
    }
    proof {
        assert(a@ =~= b@);
    }
    true
}

/// Compare a string slice with a string character for character.
pub fn str_eq_string(a: &str, b: &String) -> (r: bool)
    ensures
        r == (a@ == b@),
{
    str_eq(a, b.as_str())
}

impl Pickle {
    /// Narrow to a boolean.
    pub fn try_bool(self) -> (r: Result<bool, PickleError>)
        ensures
            r matches Ok(b) ==> self.deep_view() == PickleVal::Bool(b),
            r is Err ==> r == Err::<bool, PickleError>(PickleError::CannotTryInto) && !(
            self.deep_view() is Bool),
            self.deep_view() is Bool ==> r is Ok,
    {
        match self {
            Pickle::Bool(b) => Ok(b),
            _ => Err(PickleError::CannotTryInto),
        }
    }

    /// Narrow to an unsigned 64-bit integer; a signed number converts
    /// exactly when it is non-negative.
    pub fn try_u64(self) -> (r: Result<u64, PickleError>)
        ensures
            match r {
                Ok(v) => self.deep_view() == PickleVal::Uint(v) || (self.deep_view()
                    == PickleVal::Int(v as i64) && v <= i64::MAX),
                Err(e) => e == PickleError::CannotTryInto && (match self.deep_view() {
                    PickleVal::Uint(_) => false,
                    PickleVal::Int(x) => x < 0,
                    _ => true,
                }),
            },
    {
        match self {
            Pickle::Number(PickleNumber::Uint(v)) => Ok(v),
            Pickle::Number(PickleNumber::Int(v)) => {
                if v >= 0 {
                    Ok(v as u64)
                } else {
                    Err(PickleError::CannotTryInto)
                }
            },
            _ => Err(PickleError::CannotTryInto),
        }
    }

    /// Narrow to a signed 64-bit integer; an unsigned number converts
    /// exactly when it fits.
    pub fn try_i64(self) -> (r: Result<i64, PickleError>)
        ensures
            match r {
                Ok(v) => self.deep_view() == PickleVal::Int(v) || (v >= 0 && self.deep_view()
                    == PickleVal::Uint(v as u64)),
                Err(e) => e == PickleError::CannotTryInto && (match self.deep_view() {
                    PickleVal::Int(_) => false,
                    PickleVal::Uint(x) => x > i64::MAX,
                    _ => true,
                }),
            },
    {
        match self {
            Pickle::Number(PickleNumber::Int(v)) => Ok(v),
            Pickle::Number(PickleNumber::Uint(v)) => {
                if v <= i64::MAX as u64 {
                    Ok(v as i64)
                } else {
                    Err(PickleError::CannotTryInto)
                }
            },
            _ => Err(PickleError::CannotTryInto),
        }
    }

    /// Narrow to a string.
    pub fn try_string(self) -> (r: Result<String, PickleError>)
        ensures
            r matches Ok(s) ==> self.deep_view() == PickleVal::Str(s@),
            r is Err ==> r == Err::<String, PickleError>(PickleError::CannotTryInto) && !(
            self.deep_view() is Str),
            self.deep_view() is Str ==> r is Ok,
    {
        match self {
            Pickle::String(s) => Ok(s),
            _ => Err(PickleError::CannotTryInto),
        }
    }

    /// Narrow to a byte string.
    pub fn try_binary(self) -> (r: Result<Vec<u8>, PickleError>)
        ensures
            r matches Ok(v) ==> self.deep_view() == PickleVal::Binary(v@),
            r is Err ==> r == Err::<Vec<u8>, PickleError>(PickleError::CannotTryInto) && !(
            self.deep_view() is Binary),
            self.deep_view() is Binary ==> r is Ok,
    {
        match self {
            Pickle::Binary(v) => Ok(v),
            _ => Err(PickleError::CannotTryInto),
        }
    }

    /// Take the items of a list or a tuple.
    pub fn try_items(self) -> (r: Result<Vec<Pickle>, PickleError>)
        ensures
            r matches Ok(v) ==> self.deep_view() == PickleVal::List(seq_view(v@))
                || self.deep_view() == PickleVal::Tuple(seq_view(v@)),
            r is Err ==> r == Err::<Vec<Pickle>, PickleError>(PickleError::CannotTryInto) && !(
            self.deep_view() is List) && !(self.deep_view() is Tuple),
            self.deep_view() is List || self.deep_view() is Tuple ==> r is Ok,
    {
        match self {
            Pickle::List(v) => Ok(v),
            Pickle::Tuple(v) => Ok(v),
            _ => Err(PickleError::CannotTryInto),
        }
    }

    /// Take the bindings of a dictionary.
    pub fn try_dict(self) -> (r: Result<Vec<(String, Pickle)>, PickleError>)
        ensures
            r matches Ok(d) ==> self.deep_view() == PickleVal::Dict(dict_view(d@)),
            r is Err ==> r == Err::<Vec<(String, Pickle)>, PickleError>(
                PickleError::CannotTryInto,
            ) && !(self.deep_view() is Dict),
            self.deep_view() is Dict ==> r is Ok,
    {
        match self {
            Pickle::Dict(d) => Ok(d),
            _ => Err(PickleError::CannotTryInto),
        }
    }

    /// Narrow to a module reference.
    pub fn try_module(self) -> (r: Result<PickleModule, PickleError>)
        ensures
            r matches Ok(m) ==> self.deep_view() == PickleVal::Module(m.module@, m.name@),
            r is Err ==> r == Err::<PickleModule, PickleError>(PickleError::CannotTryInto) && !(
            self.deep_view() is Module),
            self.deep_view() is Module ==> r is Ok,
    {
        match self {
            Pickle::Module(m) => Ok(m),
            _ => Err(PickleError::CannotTryInto),
        }
    }

    /// Narrow to a class instance.
    pub fn try_class(self) -> (r: Result<PickleClass, PickleError>)
        ensures
            r matches Ok(c) ==> self.deep_view() == PickleVal::Class(c.deep_view()),
            r is Err ==> r == Err::<PickleClass, PickleError>(PickleError::CannotTryInto) && !(
            self.deep_view() is Class),
            self.deep_view() is Class ==> r is Ok,
    {
        match self {
            Pickle::Class(c) => Ok(c),
            _ => Err(PickleError::CannotTryInto),
        }
    }
}

} // verus!
