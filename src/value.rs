//! The value model shared by every structured file format.
use vstd::prelude::*;
use vstd::arithmetic::div_mod::{
    lemma_div_denominator, lemma_div_is_ordered_by_denominator, lemma_fundamental_div_mod,
    lemma_mod_bound,
};
use vstd::arithmetic::power2::{
    lemma2_to64, lemma_pow2_adds, lemma_pow2_pos, lemma_pow2_strictly_increases, lemma_pow2_unfold, pow2,
};

verus! {

/// A number as parsed from a structured document: an integer, or a finite
/// binary64 float held by its IEEE-754 bit pattern.
#[derive(Clone, Copy, Debug)]
pub enum Number {
    Int(i128),
    Float(u64),
}

/// A parsed structured document node.
#[derive(Debug)]
pub enum Value {
    Null,
    Bool(bool),
    Number(Number),
    String(String),
    Array(Vec<Value>),
    Object(Vec<(String, Value)>),
}

/// The mathematical model of a [`Value`].
pub enum Json {
    Null,
    Bool(bool),
    Number(Number),
    Str(Seq<char>),
    Array(Seq<Json>),
    Object(Seq<(Seq<char>, Json)>),
}

pub open spec fn value_view(v: Value) -> Json
    decreases v,
{
    match v {
        Value::Null => Json::Null,
        Value::Bool(b) => Json::Bool(b),
        Value::Number(n) => Json::Number(n),
        Value::String(s) => Json::Str(s@),
        Value::Array(items) => Json::Array(
            Seq::new(items.len() as nat, |i: int| if 0 <= i < items.len() { value_view(items[i]) } else { Json::Null }),
        ),
        Value::Object(fields) => Json::Object(
            Seq::new(fields.len() as nat, |i: int| if 0 <= i < fields.len() { (fields[i].0@, value_view(fields[i].1)) } else { (Seq::empty(), Json::Null) }),
        ),
    }
}

impl View for Value {
    type V = Json;

    open spec fn view(&self) -> Json {
        value_view(*self)
    }
}

/// The model of an object's entries, in the order they are held.
pub open spec fn entries_view(f: Seq<(String, Value)>) -> Seq<(Seq<char>, Json)> {
    Seq::new(f.len(), |i: int| (f[i].0@, f[i].1@))
}

pub proof fn lemma_object_view(f: Vec<(String, Value)>)
    ensures
        Value::Object(f)@ == Json::Object(entries_view(f@)),
{
    if let Json::Object(e) = Value::Object(f)@ {
        assert(e =~= entries_view(f@));
    }
}

pub proof fn lemma_array_view(items: Vec<Value>)
    ensures
        Value::Array(items)@ == Json::Array(items_view(items@)),
{
    if let Json::Array(e) = Value::Array(items)@ {
        assert(e =~= items_view(items@));
    }
}

/// The key under which two floats compare equal: the bit pattern, signed,
/// so that both zeros get the same key.
pub open spec fn float_key(bits: u64) -> int {
    if bits >= 0x8000_0000_0000_0000 {
        0x8000_0000_0000_0000 - bits
    } else {
        bits as int
    }
}

/// Exact numeric equality: an integer never equals a float.
pub open spec fn num_eq(a: Number, b: Number) -> bool {
    match (a, b) {
        (Number::Int(x), Number::Int(y)) => x == y,
        (Number::Float(x), Number::Float(y)) => float_key(x) == float_key(y),
        _ => false,
    }
}

/// The significand of a binary64 bit pattern, as an integer.
pub open spec fn float_significand(bits: u64) -> nat {
    let e = (bits / 0x10_0000_0000_0000) % 2048;
    let m = bits % 0x10_0000_0000_0000;
    if e == 0 {
        m as nat
    } else {
        (m + 0x10_0000_0000_0000) as nat
    }
}

/// The power of two by which a float's significand is scaled, counted from
/// 2^-1074 (the weight of the least subnormal's last bit).
pub open spec fn float_scale(bits: u64) -> nat {
    let e = (bits / 0x10_0000_0000_0000) % 2048;
    if e == 0 {
        0
    } else {
        (e - 1) as nat
    }
}

/// Whether a number lies below zero.
pub open spec fn negative(n: Number) -> bool {
    match n {
        Number::Int(i) => i < 0,
        Number::Float(bits) => bits >= 0x8000_0000_0000_0000 && float_significand(bits) > 0,
    }
}

/// The absolute value of a number, times 2^1074, is `magnitude * 2^scale`.
pub open spec fn magnitude(n: Number) -> nat {
    match n {
        Number::Int(i) => if i < 0 {
            (-i) as nat
        } else {
            i as nat
        },
        Number::Float(bits) => float_significand(bits),
    }
}

pub open spec fn scale(n: Number) -> nat {
    match n {
        Number::Int(_) => 1074,
        Number::Float(bits) => float_scale(bits),
    }
}

/// The value of a number times 2^1074: an integer for every integer and
/// every finite float, so that both kinds compare exactly.
pub open spec fn scaled(n: Number) -> int {
    let v = (magnitude(n) * pow2(scale(n))) as int;
    if negative(n) {
        -v
    } else {
        v
    }
}

/// `a <= b` by value: a total order over integers and floats together.
pub open spec fn num_le(a: Number, b: Number) -> bool {
    scaled(a) <= scaled(b)
}

proof fn lemma_mul_le_iff(x: int, y: int, p: int)
    requires
        x >= 0,
        y >= 0,
        p > 0,
    ensures
        (x * p <= y) == (x <= y / p),
{
    lemma_fundamental_div_mod(y, p);
    lemma_mod_bound(y, p);
    let q = y / p;
    let r = y % p;
    if x <= q {
        assert(x * p <= q * p) by (nonlinear_arith)
            requires
                x <= q,
                p > 0,
        ;
        assert(x * p <= y) by (nonlinear_arith)
            requires
                x * p <= q * p,
                y == p * q + r,
                r >= 0,
        ;
    } else {
        assert(x * p >= (q + 1) * p) by (nonlinear_arith)
            requires
                x >= q + 1,
                p > 0,
        ;
        assert(x * p > y) by (nonlinear_arith)
            requires
                x * p >= (q + 1) * p,
                y == p * q + r,
                r < p,
        ;
    }
}

/// `m / 2^d`.
fn shift_down(m: u128, d: u32) -> (r: u128)
    ensures
        r == m as int / pow2(d as nat) as int,
{
    let mut q: u128 = m;
    let mut i: u32 = 0;
    proof {
        lemma2_to64();
    }
    while i < d && q > 0
        invariant
            i <= d,
            q == m as int / pow2(i as nat) as int,
        decreases d - i,
    {
        proof {
            lemma_pow2_pos(i as nat);
            lemma_pow2_unfold((i + 1) as nat);
            lemma_div_denominator(m as int, pow2(i as nat) as int, 2);
            assert(pow2(i as nat) * 2 == pow2((i + 1) as nat));
        }
        q = q / 2;
        i = i + 1;
    }
    proof {
        if i < d {
            lemma_pow2_pos(i as nat);
            lemma_pow2_pos(d as nat);
            lemma_pow2_strictly_increases(i as nat, d as nat);
            lemma_div_is_ordered_by_denominator(m as int, pow2(i as nat) as int, pow2(d as nat) as int);
        }
    }
    q
}

/// Whether `m1 * 2^k1 <= m2 * 2^k2`.
fn scaled_at_most(m1: u128, k1: u32, m2: u128, k2: u32) -> (r: bool)
    ensures
        r == (m1 * pow2(k1 as nat) <= m2 * pow2(k2 as nat)),
{
    proof {
        lemma_pow2_pos(k1 as nat);
        lemma_pow2_pos(k2 as nat);
    }
    if k1 >= k2 {
        let d = k1 - k2;
        let q = shift_down(m2, d);
        proof {
            lemma_pow2_pos(d as nat);
            lemma_pow2_adds(d as nat, k2 as nat);
            assert(m1 * pow2(k1 as nat) == (m1 * pow2(d as nat)) * pow2(k2 as nat)) by (nonlinear_arith)
                requires
                    pow2(k1 as nat) == pow2(d as nat) * pow2(k2 as nat),
            ;
            lemma_mul_le_iff(m1 * pow2(d as nat), m2 as int, pow2(k2 as nat) as int);
            lemma_mul_le_iff(m1 as int, m2 as int, pow2(d as nat) as int);
            assert(((m1 * pow2(d as nat)) * pow2(k2 as nat) <= m2 * pow2(k2 as nat)) == (m1 * pow2(d as nat) <= m2)) by (nonlinear_arith)
                requires
                    pow2(k2 as nat) > 0,
            ;
        }
        m1 <= q
    } else {
        let d = k2 - k1;
        proof {
            lemma_pow2_pos(d as nat);
            lemma_pow2_adds(d as nat, k1 as nat);
            assert(m2 * pow2(k2 as nat) == (m2 * pow2(d as nat)) * pow2(k1 as nat)) by (nonlinear_arith)
                requires
                    pow2(k2 as nat) == pow2(d as nat) * pow2(k1 as nat),
            ;
            assert((m1 * pow2(k1 as nat) <= (m2 * pow2(d as nat)) * pow2(k1 as nat)) == (m1 <= m2 * pow2(d as nat))) by (nonlinear_arith)
                requires
                    pow2(k1 as nat) > 0,
            ;
        }
        if m1 == 0 {
            proof {
                assert(0 <= m2 * pow2(d as nat)) by (nonlinear_arith)
                    requires
                        pow2(d as nat) > 0,
                ;
            }
            true
        } else {
            let q = shift_down(m1 - 1, d);
            proof {
                lemma_mul_le_iff(m2 as int, m1 - 1, pow2(d as nat) as int);
            }
            !(m2 <= q)
        }
    }
}

/// Whether the number lies below zero, its magnitude and its scale.
fn parts(n: &Number) -> (r: (bool, u128, u32))
    ensures
        r.0 == negative(*n),
        r.1 == magnitude(*n),
        r.2 == scale(*n),
{
    match n {
        Number::Int(i) => {
            if *i < 0 {
                let m: u128 = if *i == i128::MIN {
                    0x8000_0000_0000_0000_0000_0000_0000_0000u128
                } else {
                    (-*i) as u128
                };
                (true, m, 1074)
            } else {
                (false, *i as u128, 1074)
            }
        },
        Number::Float(bits) => {
            let e = (*bits / 0x10_0000_0000_0000) % 2048;
            let m = *bits % 0x10_0000_0000_0000;
            let significand: u64 = if e == 0 {
                m
            } else {
                m + 0x10_0000_0000_0000
            };
            let s: u32 = if e == 0 {
                0
            } else {
                (e - 1) as u32
            };
            (*bits >= 0x8000_0000_0000_0000 && significand > 0, significand as u128, s)
        },
    }
}

fn float_order_key(bits: u64) -> (r: i128)
    ensures
        r == float_key(bits),
{
    if bits >= 0x8000_0000_0000_0000 {
        0x8000_0000_0000_0000i128 - bits as i128
    } else {
        bits as i128
    }
}

impl Number {
    /// Exact equality of two numbers.
    pub fn equals(&self, other: &Number) -> (r: bool)
        ensures
            r == num_eq(*self, *other),
    {
        match (self, other) {
            (Number::Int(x), Number::Int(y)) => *x == *y,
            (Number::Float(x), Number::Float(y)) => float_order_key(*x) == float_order_key(*y),
            _ => false,
        }
    }

    /// Whether `self <= other` by value, integers and floats alike.
    pub fn at_most(&self, other: &Number) -> (r: bool)
        ensures
            r == num_le(*self, *other),
    {
        let (na, ma, ka) = parts(self);
        let (nb, mb, kb) = parts(other);
        let ghost va = ma * pow2(ka as nat);
        let ghost vb = mb * pow2(kb as nat);
        proof {
            lemma_pow2_pos(ka as nat);
            lemma_pow2_pos(kb as nat);
            assert(va >= 0 && (ma > 0 ==> va > 0)) by (nonlinear_arith)
                requires
                    va == ma * pow2(ka as nat),
                    pow2(ka as nat) > 0,
            ;
            assert(vb >= 0 && (mb > 0 ==> vb > 0)) by (nonlinear_arith)
                requires
                    vb == mb * pow2(kb as nat),
                    pow2(kb as nat) > 0,
            ;
            assert(va == magnitude(*self) * pow2(scale(*self)));
            assert(vb == magnitude(*other) * pow2(scale(*other)));
            assert(na ==> ma > 0);
            assert(nb ==> mb > 0);
        }
        if na && !nb {
            true
        } else if !na && nb {
            false
        } else if !na {
            scaled_at_most(ma, ka, mb, kb)
        } else {
            scaled_at_most(mb, kb, ma, ka)
        }
    }
}

/// `i` is the first position of an entry with key `k`.
pub open spec fn is_first_key(f: Seq<(Seq<char>, Json)>, k: Seq<char>, i: int) -> bool {
    &&& 0 <= i < f.len()
    &&& f[i].0 == k
    &&& forall|m: int| 0 <= m < i ==> #[trigger] f[m].0 != k
}

/// The position of the first entry with key `k`, or -1 where there is none.
pub open spec fn key_index(f: Seq<(Seq<char>, Json)>, k: Seq<char>) -> int {
    if exists|i: int| is_first_key(f, k, i) {
        choose|i: int| is_first_key(f, k, i)
    } else {
        -1
    }
}

pub open spec fn has_key(f: Seq<(Seq<char>, Json)>, k: Seq<char>) -> bool {
    key_index(f, k) >= 0
}

/// The value of the entry with key `k` (the first one, if several share it).
pub open spec fn field(f: Seq<(Seq<char>, Json)>, k: Seq<char>) -> Json {
    f[key_index(f, k)].1
}

pub proof fn lemma_first_key_unique(f: Seq<(Seq<char>, Json)>, k: Seq<char>, i: int)
    requires
        is_first_key(f, k, i),
    ensures
        key_index(f, k) == i,
{
    let c = key_index(f, k);
    assert(is_first_key(f, k, c));
    if c < i {
        assert(f[c].0 != k);
    }
    if i < c {
        assert(f[i].0 != k);
    }
}

/// Two objects have the same set of keys.
pub open spec fn same_keys(a: Seq<(Seq<char>, Json)>, b: Seq<(Seq<char>, Json)>) -> bool {
    &&& forall|i: int| 0 <= i < a.len() ==> has_key(b, #[trigger] a[i].0)
    &&& forall|j: int| 0 <= j < b.len() ==> has_key(a, #[trigger] b[j].0)
}

/// Structural equality of two values: arrays position by position, objects
/// as mappings from keys to values (the order of entries is irrelevant).
pub open spec fn json_eq(a: Json, b: Json) -> bool
    decreases a,
{
    match a {
        Json::Null => b is Null,
        Json::Bool(x) => b == Json::Bool(x),
        Json::Number(x) => b matches Json::Number(y) && num_eq(x, y),
        Json::Str(s) => b == Json::Str(s),
        Json::Array(xs) => match b {
            Json::Array(ys) => xs.len() == ys.len() && forall|i: int|
                0 <= i < xs.len() ==> json_eq(#[trigger] xs[i], ys[i]),
            _ => false,
        },
        Json::Object(xs) => match b {
            Json::Object(ys) => same_keys(xs, ys) && forall|i: int|
                0 <= i < xs.len() && key_index(xs, xs[i].0) == i ==> json_eq(
                    #[trigger] xs[i].1,
                    field(ys, xs[i].0),
                ),
            _ => false,
        },
    }
}

/// The type tag of a value.
#[derive(Clone, Copy, Debug, Hash, PartialEq, Eq, Structural)]
pub enum JsonType {
    Null,
    Bool,
    Number,
    String,
    Array,
    Object,
}

pub open spec fn type_of(j: Json) -> JsonType {
    match j {
        Json::Null => JsonType::Null,
        Json::Bool(_) => JsonType::Bool,
        Json::Number(_) => JsonType::Number,
        Json::Str(_) => JsonType::String,
        Json::Array(_) => JsonType::Array,
        Json::Object(_) => JsonType::Object,
    }
}

impl JsonType {
    /// The type tag of `value`.
    pub fn of(value: &Value) -> (r: JsonType)
        ensures
            r == type_of(value@),
    {
        match value {
            Value::Null => JsonType::Null,
            Value::Bool(_) => JsonType::Bool,
            Value::Number(_) => JsonType::Number,
            Value::String(_) => JsonType::String,
            Value::Array(_) => JsonType::Array,
            Value::Object(_) => JsonType::Object,
        }
    }
}

/// The position of the first entry of `fields` whose key is `k`.
pub fn find_key(fields: &Vec<(String, Value)>, k: &String) -> (r: Option<usize>)
    ensures
        match r {
            Some(i) => i < fields.len() && key_index(entries_view(fields@), k@) == i,
            None => key_index(entries_view(fields@), k@) == -1,
        },
{
    let ghost e = entries_view(fields@);
    let mut i: usize = 0;
    while i < fields.len()
        invariant
            i <= fields.len(),
            e == entries_view(fields@),
            forall|m: int| 0 <= m < i ==> #[trigger] e[m].0 != k@,
        decreases fields.len() - i,
    {
        if fields[i].0 == *k {
            proof {
                lemma_first_key_unique(e, k@, i as int);
            }
            return Some(i);
        }
        i = i + 1;
    }
    assert(!exists|c: int| is_first_key(e, k@, c));
    None
}


/// The models of a sequence of values.
pub open spec fn items_view(xs: Seq<Value>) -> Seq<Json> {
    xs.map_values(|x: Value| x@)
}

/// Structural equality of two values, as [`json_eq`] states it.
pub fn values_equal(a: &Value, b: &Value) -> (r: bool)
    ensures
        r == json_eq(a@, b@),
    decreases a, 1int,
{
    match (a, b) {
        (Value::Null, Value::Null) => true,
        (Value::Bool(x), Value::Bool(y)) => *x == *y,
        (Value::Number(x), Value::Number(y)) => x.equals(y),
        (Value::String(x), Value::String(y)) => *x == *y,
        (Value::Array(xs), Value::Array(ys)) => {
            proof {
                lemma_array_view(*xs);
                lemma_array_view(*ys);
                assert(decreases_to!(*a => (*a)->Array_0));
            }
            items_equal(xs, ys)
        },
        (Value::Object(xs), Value::Object(ys)) => {
            proof {
                lemma_object_view(*xs);
                lemma_object_view(*ys);
                assert(decreases_to!(*a => (*a)->Object_0));
            }
            entries_equal(xs, ys)
        },
        _ => false,
    }
}

/// Equality of two arrays, element by element.
pub fn items_equal(xs: &Vec<Value>, ys: &Vec<Value>) -> (r: bool)
    ensures
        r == json_eq(Json::Array(items_view(xs@)), Json::Array(items_view(ys@))),
    decreases xs, 0int,
{
    let ghost ax = items_view(xs@);
    let ghost ay = items_view(ys@);
    if xs.len() != ys.len() {
        return false;
    }
    let mut i: usize = 0;
    while i < xs.len()
        invariant
            i <= xs.len(),
            xs.len() == ys.len(),
            ax == items_view(xs@),
            ay == items_view(ys@),
            forall|m: int| 0 <= m < i ==> json_eq(#[trigger] ax[m], ay[m]),
        decreases xs.len() - i,
    {
        proof {
            vstd::std_specs::vec::axiom_vec_index_decreases(*xs, i as int);
        }
        if !values_equal(&xs[i], &ys[i]) {
            assert(!json_eq(ax[i as int], ay[i as int]));
            return false;
        }
        i = i + 1;
    }
    true
}

/// Equality of two objects as mappings from keys to values.
pub fn entries_equal(xs: &Vec<(String, Value)>, ys: &Vec<(String, Value)>) -> (r: bool)
    ensures
        r == json_eq(Json::Object(entries_view(xs@)), Json::Object(entries_view(ys@))),
    decreases xs, 0int,
{
    let ghost ex = entries_view(xs@);
    let ghost ey = entries_view(ys@);
    let mut i: usize = 0;
    while i < xs.len()
        invariant
            i <= xs.len(),
            ex == entries_view(xs@),
            ey == entries_view(ys@),
            forall|m: int| 0 <= m < i ==> has_key(ey, #[trigger] ex[m].0),
        decreases xs.len() - i,
    {
        if find_key(ys, &xs[i].0).is_none() {
            assert(!has_key(ey, ex[i as int].0));
            return false;
        }
        i = i + 1;
    }
    let mut j: usize = 0;
    while j < ys.len()
        invariant
            j <= ys.len(),
            ex == entries_view(xs@),
            ey == entries_view(ys@),
            forall|m: int| 0 <= m < j ==> has_key(ex, #[trigger] ey[m].0),
        decreases ys.len() - j,
    {
        if find_key(xs, &ys[j].0).is_none() {
            assert(!has_key(ex, ey[j as int].0));
            return false;
        }
        j = j + 1;
    }
    assert(same_keys(ex, ey));
    let mut i: usize = 0;
    while i < xs.len()
        invariant
            i <= xs.len(),
            ex == entries_view(xs@),
            ey == entries_view(ys@),
            same_keys(ex, ey),
            forall|m: int|
                0 <= m < i && key_index(ex, ex[m].0) == m ==> json_eq(
                    #[trigger] ex[m].1,
                    field(ey, ex[m].0),
                ),
        decreases xs.len() - i,
    {
        if find_key(xs, &xs[i].0) == Some(i) {
            assert(has_key(ey, ex[i as int].0));
            match find_key(ys, &xs[i].0) {
                Some(k) => {
                    proof {
                        vstd::std_specs::vec::axiom_vec_index_decreases(*xs, i as int);
                        assert(decreases_to!(xs[i as int] => xs[i as int].1));
                    }
                    if !values_equal(&xs[i].1, &ys[k].1) {
                        assert(!json_eq(ex[i as int].1, field(ey, ex[i as int].0)));
                        return false;
                    }
                },
                None => {},
            }
        }
        i = i + 1;
    }
    true
}

/// A deep copy of a value.
pub fn copy_value(v: &Value) -> (r: Value)
    ensures
        r@ == v@,
    decreases v, 1int,
{
    match v {
        Value::Null => Value::Null,
        Value::Bool(b) => Value::Bool(*b),
        Value::Number(n) => Value::Number(*n),
        Value::String(s) => Value::String(s.clone()),
        Value::Array(xs) => {
            proof {
                assert(decreases_to!(*v => (*v)->Array_0));
            }
            let out = copy_items(xs);
            proof {
                lemma_array_view(*xs);
                lemma_array_view(out);
            }
            Value::Array(out)
        },
        Value::Object(fs) => {
            proof {
                assert(decreases_to!(*v => (*v)->Object_0));
            }
            let out = copy_entries(fs);
            proof {
                lemma_object_view(*fs);
                lemma_object_view(out);
            }
            Value::Object(out)
        },
    }
}

/// A deep copy of a sequence of values.
pub fn copy_items(xs: &Vec<Value>) -> (r: Vec<Value>)
    ensures
        items_view(r@) == items_view(xs@),
    decreases xs, 0int,
{
    let mut out: Vec<Value> = Vec::new();
    let mut i: usize = 0;
    while i < xs.len()
        invariant
            i <= xs.len(),
            out.len() == i,
            forall|m: int| 0 <= m < i ==> (#[trigger] out[m])@ == xs[m]@,
        decreases xs.len() - i,
    {
        proof {
            vstd::std_specs::vec::axiom_vec_index_decreases(*xs, i as int);
        }
        out.push(copy_value(&xs[i]));
        i = i + 1;
    }
    assert(items_view(out@) =~= items_view(xs@));
    out
}

/// A deep copy of an object's entries.
pub fn copy_entries(fs: &Vec<(String, Value)>) -> (r: Vec<(String, Value)>)
    ensures
        entries_view(r@) == entries_view(fs@),
    decreases fs, 0int,
{
    let mut out: Vec<(String, Value)> = Vec::new();
    let mut i: usize = 0;
    while i < fs.len()
        invariant
            i <= fs.len(),
            out.len() == i,
            forall|m: int|
                0 <= m < i ==> (#[trigger] out[m]).0@ == fs[m].0@ && out[m].1@ == fs[m].1@,
        decreases fs.len() - i,
    {
        proof {
            vstd::std_specs::vec::axiom_vec_index_decreases(*fs, i as int);
            assert(decreases_to!(fs[i as int] => fs[i as int].1));
        }
        let c = copy_value(&fs[i].1);
        out.push((fs[i].0.clone(), c));
        i = i + 1;
    }
    assert(entries_view(out@) =~= entries_view(fs@));
    out
}

} // verus!
