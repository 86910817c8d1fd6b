use vstd::prelude::*;

verus! {

/// Arithmetic on the language's numbers.
///
/// A number is held as the bit pattern of an IEEE-754 double. The library moves numbers
/// around and decides which operation applies; the floating-point work itself is supplied
/// by whoever embeds the interpreter, through this trait. Each operation is named by a spec
/// function, so that contracts can say which operation gives a result; what the operation
/// computes on given bits is the embedder's IEEE-754 arithmetic, and an embedder implements
/// each spec function by the same code as the method that it names.
pub trait Numbers {
    /// The number a numeral denotes.
    spec fn numeral_of(&self, numeral: String) -> u64;

    /// A whole count as a number.
    spec fn count_of(&self, n: u64) -> u64;

    spec fn neg_of(&self, a: u64) -> u64;

    spec fn sum_of(&self, a: u64, b: u64) -> u64;

    spec fn difference_of(&self, a: u64, b: u64) -> u64;

    spec fn product_of(&self, a: u64, b: u64) -> u64;

    spec fn quotient_of(&self, a: u64, b: u64) -> u64;

    spec fn less_of(&self, a: u64, b: u64) -> bool;

    spec fn less_equal_of(&self, a: u64, b: u64) -> bool;

    spec fn near_of(&self, a: u64, b: u64) -> bool;

    /// The text `print` writes for a number.
    spec fn text_of(&self, a: u64) -> String;

    /// The text `tokenize` and `parse` write for a numeral.
    spec fn numeral_text(&self, numeral: String) -> String;

    /// The number denoted by a numeral `DIGIT+ ('.' DIGIT+)?`.
    fn from_numeral(&self, numeral: &String) -> (r: u64)
        ensures
            r == self.numeral_of(*numeral),
    ;

    /// A whole count as a number.
    fn from_count(&self, n: u64) -> (r: u64)
        ensures
            r == self.count_of(n),
    ;

    /// `-a`.
    fn negate(&self, a: u64) -> (r: u64)
        ensures
            r == self.neg_of(a),
    ;

    /// `a + b`.
    fn sum(&self, a: u64, b: u64) -> (r: u64)
        ensures
            r == self.sum_of(a, b),
    ;

    /// `a - b`.
    fn difference(&self, a: u64, b: u64) -> (r: u64)
        ensures
            r == self.difference_of(a, b),
    ;

    /// `a * b`.
    fn product(&self, a: u64, b: u64) -> (r: u64)
        ensures
            r == self.product_of(a, b),
    ;

    /// `a / b`, with no check for zero.
    fn quotient(&self, a: u64, b: u64) -> (r: u64)
        ensures
            r == self.quotient_of(a, b),
    ;

    /// `a < b`.
    fn less(&self, a: u64, b: u64) -> (r: bool)
        ensures
            r == self.less_of(a, b),
    ;

    /// `a <= b`.
    fn less_equal(&self, a: u64, b: u64) -> (r: bool)
        ensures
            r == self.less_equal_of(a, b),
    ;

    /// Equality of numbers, `|a - b|` below the machine epsilon.
    fn nearly_equal(&self, a: u64, b: u64) -> (r: bool)
        ensures
            r == self.near_of(a, b),
    ;

    /// The shortest decimal form that reads back as `a`, integers without a fraction.
    fn show(&self, a: u64) -> (r: String)
        ensures
            r@ == self.text_of(a)@,
    ;

    /// The normalized form of a numeral's value, integers with a `.0` fraction.
    fn show_numeral(&self, numeral: &String) -> (r: String)
        ensures
            r@ == self.numeral_text(*numeral)@,
    ;
}

} // verus!
