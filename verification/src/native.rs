use vstd::prelude::*;
use rand::RngExt;

verus! {

/// Which built-in function a native function object runs.
#[derive(Debug, Clone, Copy, PartialEq, Eq, Structural)]
pub enum NativeKind {
    Clock,
    Floor,
    Modulo,
    Random,
}

/// A built-in function: its parameter count, name, whether it takes any number of
/// arguments, and which built-in it runs.
pub struct NativeFunction {
    pub arity: usize,
    pub name: String,
    pub is_variadic: bool,
    pub kind: NativeKind,
}

/// The abstract state of a built-in function.
pub struct NativeView {
    pub arity: usize,
    pub name: Seq<char>,
    pub is_variadic: bool,
    pub kind: NativeKind,
}

impl View for NativeFunction {
    type V = NativeView;

    open spec fn view(&self) -> NativeView {
        NativeView {
            arity: self.arity,
            name: self.name@,
            is_variadic: self.is_variadic,
            kind: self.kind,
        }
    }
}

/// The built-in functions, in the order they are defined as globals.
pub open spec fn native_table() -> Seq<NativeView> {
    seq![
        NativeView { arity: 0, name: "clock"@, is_variadic: false, kind: NativeKind::Clock },
        NativeView { arity: 1, name: "floor"@, is_variadic: false, kind: NativeKind::Floor },
        NativeView { arity: 2, name: "modulo"@, is_variadic: false, kind: NativeKind::Modulo },
        NativeView { arity: 2, name: "random"@, is_variadic: false, kind: NativeKind::Random },
    ]
}

fn native(arity: usize, name: &str, kind: NativeKind) -> (f: NativeFunction)
    ensures
        f@ == (NativeView { arity, name: name@, is_variadic: false, kind }),
{
    NativeFunction { arity, name: name.to_owned(), is_variadic: false, kind }
}

/// The built-in functions: `clock`, `floor`, `modulo` and `random`.
pub fn get_native_functions() -> (v: Vec<NativeFunction>)
    ensures
        v@.len() == native_table().len(),
        forall|i: int| 0 <= i < v@.len() ==> #[trigger] v@[i]@ == native_table()[i],
{
    let v = vec![
        native(0, "clock", NativeKind::Clock),
        native(1, "floor", NativeKind::Floor),
        native(2, "modulo", NativeKind::Modulo),
        native(2, "random", NativeKind::Random),
    ];
    v
}

/// Calls `rand::rng().random_range(low..=high)` on the thread's generator. Trusted:
/// the contract claims that the result lies in `low..=high`, as rand documents for a
/// non-empty range (it panics on an empty one, which `requires` rules out); which value
/// comes is chance and is not stated.
#[verifier::external_body]
fn random_inclusive(low: i64, high: i64) -> (r: i64)
    requires
        low <= high,
    ensures
        low <= r <= high,
{
    let mut rng = rand::rng();
    rng.random_range(low..=high)
}

/// The integer that `random(min, max)` returns, for the floors of its arguments:
/// a random integer between them, both included, or nothing when the range is empty.
pub fn random_integer(low: i64, high: i64) -> (r: Option<i64>)
    ensures
        r is None <==> low > high,
        r matches Some(n) ==> low <= n <= high,
{
    if low > high {
        None
    } else {
        Some(random_inclusive(low, high))
    }
}

} // verus!
