//! Format strings: an optional byte-order mark followed by one or more type
//! specifiers, where `[...; n]` repeats a group of specifiers `n` times.
//!
//! The grammar, with `_` standing for any run of ASCII whitespace:
//!
//! ```text
//! format  = order _ items _
//! order   = "<" | ">" | "@" | ""
//! items   = item+
//! item    = _ letter | _ "[" _ items _ ";" _ digits _ "]"
//! ```
use vstd::prelude::*;
use vstd::string::StringSliceAdditionalSpecFns;

verus! {

/// A scalar type specifier.
#[derive(Clone, Copy, Debug, PartialEq, Eq, Structural)]
pub enum Prim {
    /// `c`: `char`, four bytes holding its scalar value.
    Char,
    /// `b`: `i8`.
    I8,
    /// `B`: `u8`.
    U8,
    /// `?`: `bool`, one byte.
    Bool,
    /// `h`: `i16`.
    I16,
    /// `H`: `u16`.
    U16,
    /// `i`: `i32`.
    I32,
    /// `I`: `u32`.
    U32,
    /// `q`: `i64`.
    I64,
    /// `Q`: `u64`.
    U64,
    /// `o`: `i128`.
    I128,
    /// `O`: `u128`.
    U128,
    /// `n`: `isize`, native width.
    Isize,
    /// `N`: `usize`, native width.
    Usize,
    /// `f`: `f32`, four bytes holding its IEEE 754 bits.
    F32,
    /// `d`: `f64`, eight bytes holding its IEEE 754 bits.
    F64,
    /// `s`: a string slice, its UTF-8 bytes as they are (pack only).
    Str,
    /// `p`: a byte slice, its bytes as they are (pack only).
    Bytes,
    /// `P`: a pointer, its address at native width.
    Ptr,
}

/// Whether a format describes values to pack or bytes to unpack; `s` and
/// `p` are accepted only when packing.
#[derive(Clone, Copy, Debug, PartialEq, Eq, Structural)]
pub enum Mode {
    Pack,
    Unpack,
}

/// The byte order a format asks for.
#[derive(Clone, Copy, Debug, PartialEq, Eq, Structural)]
pub enum ByteOrder {
    /// `@`: the order of the machine the code runs on.
    Native,
    /// `<`, or no mark at all.
    Little,
    /// `>`.
    Big,
}

/// Why a format string was refused.
#[derive(Clone, Copy, Debug, PartialEq, Eq, Structural)]
pub enum FormatError {
    /// The string does not follow the grammar.
    Invalid,
    /// A repeat count does not fit in `usize`.
    CountTooLarge,
}

/// One type specifier of a format.
#[derive(Debug, PartialEq, Eq)]
pub enum FmtType {
    Prim(Prim),
    /// `[items; n]`: `n` repetitions of the group `items`.
    Array(Vec<FmtType>, usize),
}

/// The mathematical form of a type specifier.
pub enum Ty {
    Prim(Prim),
    Array(Seq<Ty>, nat),
}

impl View for FmtType {
    type V = Ty;

    open spec fn view(&self) -> Ty
        decreases self,
    {
        match self {
            FmtType::Prim(p) => Ty::Prim(*p),
            FmtType::Array(v, n) => Ty::Array(tys_view(v@), *n as nat),
        }
    }
}

/// The views of a sequence of type specifiers.
pub open spec fn tys_view(v: Seq<FmtType>) -> Seq<Ty>
    decreases v,
{
    if v.len() == 0 {
        seq![]
    } else {
        tys_view(v.drop_last()).push(v.last().view())
    }
}

pub proof fn lemma_tys_view(v: Seq<FmtType>)
    ensures
        tys_view(v).len() == v.len(),
        forall|i: int| 0 <= i < v.len() ==> #[trigger] tys_view(v)[i] == v[i]@,
    decreases v.len(),
{
    if v.len() > 0 {
        lemma_tys_view(v.drop_last());
        assert(tys_view(v) == tys_view(v.drop_last()).push(v.last()@));
    } else {
        assert(tys_view(v) == Seq::<Ty>::empty());
    }
}

/// A parsed format string.
#[derive(Debug, PartialEq, Eq)]
pub struct Format {
    pub order: ByteOrder,
    pub types: Vec<FmtType>,
}

/// The mathematical form of a parsed format string.
pub struct FormatView {
    pub order: ByteOrder,
    pub types: Seq<Ty>,
}

impl View for Format {
    type V = FormatView;

    open spec fn view(&self) -> FormatView {
        FormatView { order: self.order, types: tys_view(self.types@) }
    }
}

/// The outcome of matching one rule of the grammar at a position.
pub enum Step<T> {
    /// The rule matched, ending just before the given position.
    Matched(T, nat),
    /// The rule does not match here.
    NoMatch,
    /// A repeat count was read that does not fit in `usize`.
    Overflow,
}

/// ASCII whitespace: space, tab, line feed, form feed, carriage return.
pub open spec fn is_ws(b: u8) -> bool {
    b == 0x20 || b == 0x09 || b == 0x0a || b == 0x0c || b == 0x0d
}

pub open spec fn is_digit(b: u8) -> bool {
    0x30 <= b <= 0x39
}

/// The first position at or after `i` that holds no whitespace.
pub open spec fn skip_ws(s: Seq<u8>, i: nat) -> nat
    decreases s.len() - i,
{
    if i < s.len() && is_ws(s[i as int]) {
        skip_ws(s, i + 1)
    } else {
        i
    }
}

/// The first position at or after `i` that holds no decimal digit.
pub open spec fn skip_digits(s: Seq<u8>, i: nat) -> nat
    decreases s.len() - i,
{
    if i < s.len() && is_digit(s[i as int]) {
        skip_digits(s, i + 1)
    } else {
        i
    }
}

/// The number written in decimal at positions `i` up to `j`.
pub open spec fn digits_value(s: Seq<u8>, i: nat, j: nat) -> nat
    decreases j,
{
    if j <= i {
        0
    } else {
        digits_value(s, i, (j - 1) as nat) * 10 + (s[j - 1] - 0x30) as nat
    }
}

/// The scalar type a specifier letter stands for in the given mode.
pub open spec fn prim_of(b: u8, mode: Mode) -> Option<Prim> {
    if b == 0x63 {
        Some(Prim::Char)
    } else if b == 0x62 {
        Some(Prim::I8)
    } else if b == 0x42 {
        Some(Prim::U8)
    } else if b == 0x3f {
        Some(Prim::Bool)
    } else if b == 0x68 {
        Some(Prim::I16)
    } else if b == 0x48 {
        Some(Prim::U16)
    } else if b == 0x69 {
        Some(Prim::I32)
    } else if b == 0x49 {
        Some(Prim::U32)
    } else if b == 0x71 {
        Some(Prim::I64)
    } else if b == 0x51 {
        Some(Prim::U64)
    } else if b == 0x6f {
        Some(Prim::I128)
    } else if b == 0x4f {
        Some(Prim::U128)
    } else if b == 0x6e {
        Some(Prim::Isize)
    } else if b == 0x4e {
        Some(Prim::Usize)
    } else if b == 0x66 {
        Some(Prim::F32)
    } else if b == 0x64 {
        Some(Prim::F64)
    } else if b == 0x50 {
        Some(Prim::Ptr)
    } else if b == 0x73 && mode == Mode::Pack {
        Some(Prim::Str)
    } else if b == 0x70 && mode == Mode::Pack {
        Some(Prim::Bytes)
    } else {
        None
    }
}

pub proof fn lemma_skip_ws(s: Seq<u8>, i: nat)
    ensures
        i <= skip_ws(s, i),
        i <= s.len() ==> skip_ws(s, i) <= s.len(),
        skip_ws(s, i) < s.len() ==> !is_ws(s[skip_ws(s, i) as int]),
        forall|k: int| i <= k < skip_ws(s, i) ==> is_ws(#[trigger] s[k]),
    decreases s.len() - i,
{
    if i < s.len() && is_ws(s[i as int]) {
        lemma_skip_ws(s, i + 1);
    }
}

pub proof fn lemma_skip_digits(s: Seq<u8>, i: nat)
    ensures
        i <= skip_digits(s, i),
        i <= s.len() ==> skip_digits(s, i) <= s.len(),
        skip_digits(s, i) < s.len() ==> !is_digit(s[skip_digits(s, i) as int]),
        forall|k: int| i <= k < skip_digits(s, i) ==> is_digit(#[trigger] s[k]),
    decreases s.len() - i,
{
    if i < s.len() && is_digit(s[i as int]) {
        lemma_skip_digits(s, i + 1);
    }
}

/// A decimal number only grows as digits are appended.
pub proof fn lemma_digits_value_mono(s: Seq<u8>, i: nat, k: nat, j: nat)
    requires
        i <= k <= j,
        forall|m: int| i <= m < j ==> is_digit(#[trigger] s[m]),
    ensures
        digits_value(s, i, k) <= digits_value(s, i, j),
    decreases j,
{
    if k < j {
        lemma_digits_value_mono(s, i, k, (j - 1) as nat);
        assert(is_digit(s[j - 1]));
    }
}

/// One type specifier, after optional whitespace, starting at `i`.
pub open spec fn spec_item(s: Seq<u8>, i: nat, mode: Mode) -> Step<Ty>
    decreases s.len() - i, 1nat,
{
    if i >= s.len() {
        Step::NoMatch
    } else {
        let j = skip_ws(s, i);
        if j >= s.len() {
            Step::NoMatch
        } else if prim_of(s[j as int], mode) is Some {
            Step::Matched(Ty::Prim(prim_of(s[j as int], mode).unwrap()), j + 1)
        } else if s[j as int] == 0x5b {
            proof {
                lemma_skip_ws(s, i);
            }
            match spec_items(s, j + 1, mode) {
                Step::Matched(tys, k1) => {
                    let k2 = skip_ws(s, k1);
                    if k2 < s.len() && s[k2 as int] == 0x3b {
                        let k3 = skip_ws(s, k2 + 1);
                        let k4 = skip_digits(s, k3);
                        let k5 = skip_ws(s, k4);
                        if k4 == k3 {
                            Step::NoMatch
                        } else if digits_value(s, k3, k4) > usize::MAX {
                            Step::Overflow
                        } else if k5 < s.len() && s[k5 as int] == 0x5d {
                            Step::Matched(Ty::Array(tys, digits_value(s, k3, k4)), k5 + 1)
                        } else {
                            Step::NoMatch
                        }
                    } else {
                        Step::NoMatch
                    }
                },
                Step::NoMatch => Step::NoMatch,
                Step::Overflow => Step::Overflow,
            }
        } else {
            Step::NoMatch
        }
    }
}

/// One or more type specifiers starting at `i`.
pub open spec fn spec_items(s: Seq<u8>, i: nat, mode: Mode) -> Step<Seq<Ty>>
    decreases s.len() - i, 2nat,
{
    if i > s.len() {
        Step::NoMatch
    } else {
        match spec_item(s, i, mode) {
            Step::Matched(t, j) => {
                if j <= i || j > s.len() {
                    Step::NoMatch
                } else {
                    match spec_items_rest(s, j, mode) {
                        Step::Matched(ts, k) => Step::Matched(seq![t] + ts, k),
                        Step::NoMatch => Step::NoMatch,
                        Step::Overflow => Step::Overflow,
                    }
                }
            },
            Step::NoMatch => Step::NoMatch,
            Step::Overflow => Step::Overflow,
        }
    }
}

/// Zero or more type specifiers starting at `i`.
pub open spec fn spec_items_rest(s: Seq<u8>, i: nat, mode: Mode) -> Step<Seq<Ty>>
    decreases s.len() - i, 2nat,
{
    if i > s.len() {
        Step::Matched(seq![], i)
    } else {
        match spec_item(s, i, mode) {
            Step::Matched(t, j) => {
                if j <= i || j > s.len() {
                    Step::Matched(seq![], i)
                } else {
                    match spec_items_rest(s, j, mode) {
                        Step::Matched(ts, k) => Step::Matched(seq![t] + ts, k),
                        Step::NoMatch => Step::NoMatch,
                        Step::Overflow => Step::Overflow,
                    }
                }
            },
            Step::NoMatch => Step::Matched(seq![], i),
            Step::Overflow => Step::Overflow,
        }
    }
}

/// The byte order a format string begins with and where the rest starts.
pub open spec fn spec_order(s: Seq<u8>) -> (ByteOrder, nat) {
    if s.len() > 0 && s[0] == 0x3c {
        (ByteOrder::Little, 1)
    } else if s.len() > 0 && s[0] == 0x3e {
        (ByteOrder::Big, 1)
    } else if s.len() > 0 && s[0] == 0x40 {
        (ByteOrder::Native, 1)
    } else {
        (ByteOrder::Little, 0)
    }
}

/// The meaning of a whole format string, or why it is refused.
pub open spec fn spec_format(s: Seq<u8>, mode: Mode) -> Result<FormatView, FormatError> {
    let (order, i) = spec_order(s);
    match spec_items(s, i, mode) {
        Step::Matched(tys, j) => {
            if skip_ws(s, j) == s.len() {
                Ok(FormatView { order, types: tys })
            } else {
                Err(FormatError::Invalid)
            }
        },
        Step::NoMatch => Err(FormatError::Invalid),
        Step::Overflow => Err(FormatError::CountTooLarge),
    }
}


/// The end positions of the rules: a match never ends before it starts, nor
/// past the end of the string.
pub proof fn lemma_item_bounds(s: Seq<u8>, i: nat, mode: Mode)
    ensures
        spec_item(s, i, mode) matches Step::Matched(_, j) ==> i < j <= s.len(),
    decreases s.len() - i, 1nat,
{
    if i < s.len() {
        lemma_skip_ws(s, i);
        let j = skip_ws(s, i);
        if j < s.len() && prim_of(s[j as int], mode) is None && s[j as int] == 0x5b {
            lemma_items_bounds(s, j + 1, mode);
            if let Step::Matched(_, k1) = spec_items(s, j + 1, mode) {
                lemma_skip_ws(s, k1);
                let k2 = skip_ws(s, k1);
                if k2 < s.len() {
                    lemma_skip_ws(s, k2 + 1);
                    let k3 = skip_ws(s, k2 + 1);
                    lemma_skip_digits(s, k3);
                    lemma_skip_ws(s, skip_digits(s, k3));
                }
            }
        }
    }
}

pub proof fn lemma_items_bounds(s: Seq<u8>, i: nat, mode: Mode)
    ensures
        spec_items(s, i, mode) matches Step::Matched(_, k) ==> i < k <= s.len(),
        i <= s.len() ==> (spec_items_rest(s, i, mode) matches Step::Matched(_, k) ==> i <= k
            <= s.len()),
    decreases s.len() - i, 2nat,
{
    if i <= s.len() {
        lemma_item_bounds(s, i, mode);
        if let Step::Matched(_, j) = spec_item(s, i, mode) {
            if i < j <= s.len() {
                lemma_items_bounds(s, j, mode);
            }
        }
    }
}

/// One or more specifiers match exactly where zero or more match and at
/// least one is found.
pub proof fn lemma_items_from_rest(s: Seq<u8>, i: nat, mode: Mode)
    requires
        i <= s.len(),
    ensures
        spec_items(s, i, mode) == (match spec_items_rest(s, i, mode) {
            Step::Matched(ts, k) => if ts.len() == 0 {
                Step::NoMatch
            } else {
                Step::Matched(ts, k)
            },
            Step::NoMatch => Step::NoMatch,
            Step::Overflow => Step::Overflow,
        }),
{
}

/// The outcome of a parsing step, as the executable parser reports it.
pub enum Parsed<T> {
    Matched(T, usize),
    NoMatch,
    Overflow,
}

/// `r` reports the step `e` of the grammar for one specifier.
pub open spec fn reports_item(r: Parsed<FmtType>, e: Step<Ty>) -> bool {
    match (r, e) {
        (Parsed::Matched(t, j), Step::Matched(u, k)) => t@ == u && j == k,
        (Parsed::NoMatch, Step::NoMatch) => true,
        (Parsed::Overflow, Step::Overflow) => true,
        _ => false,
    }
}

/// `r` reports the step `e` of the grammar for a run of specifiers.
pub open spec fn reports_items(r: Parsed<Vec<FmtType>>, e: Step<Seq<Ty>>) -> bool {
    match (r, e) {
        (Parsed::Matched(t, j), Step::Matched(u, k)) => tys_view(t@) == u && j == k,
        (Parsed::NoMatch, Step::NoMatch) => true,
        (Parsed::Overflow, Step::Overflow) => true,
        _ => false,
    }
}

fn is_ws_byte(b: u8) -> (r: bool)
    ensures
        r == is_ws(b),
{
    b == 0x20 || b == 0x09 || b == 0x0a || b == 0x0c || b == 0x0d
}

fn exec_skip_ws(s: &[u8], i: usize) -> (j: usize)
    requires
        i <= s@.len(),
    ensures
        j == skip_ws(s@, i as nat),
{
    let mut j: usize = i;
    while j < s.len() && is_ws_byte(s[j])
        invariant
            i <= j <= s@.len(),
            skip_ws(s@, j as nat) == skip_ws(s@, i as nat),
        decreases s@.len() - j,
    {
        j = j + 1;
    }
    j
}

fn exec_prim_of(b: u8, mode: Mode) -> (r: Option<Prim>)
    ensures
        r == prim_of(b, mode),
{
    if b == 0x63 {
        Some(Prim::Char)
    } else if b == 0x62 {
        Some(Prim::I8)
    } else if b == 0x42 {
        Some(Prim::U8)
    } else if b == 0x3f {
        Some(Prim::Bool)
    } else if b == 0x68 {
        Some(Prim::I16)
    } else if b == 0x48 {
        Some(Prim::U16)
    } else if b == 0x69 {
        Some(Prim::I32)
    } else if b == 0x49 {
        Some(Prim::U32)
    } else if b == 0x71 {
        Some(Prim::I64)
    } else if b == 0x51 {
        Some(Prim::U64)
    } else if b == 0x6f {
        Some(Prim::I128)
    } else if b == 0x4f {
        Some(Prim::U128)
    } else if b == 0x6e {
        Some(Prim::Isize)
    } else if b == 0x4e {
        Some(Prim::Usize)
    } else if b == 0x66 {
        Some(Prim::F32)
    } else if b == 0x64 {
        Some(Prim::F64)
    } else if b == 0x50 {
        Some(Prim::Ptr)
    } else if b == 0x73 && mode == Mode::Pack {
        Some(Prim::Str)
    } else if b == 0x70 && mode == Mode::Pack {
        Some(Prim::Bytes)
    } else {
        None
    }
}

/// Reads the run of decimal digits at `i`: where it ends, and its value
/// unless that value does not fit in `usize`.
fn parse_count(s: &[u8], i: usize) -> (r: (usize, Option<usize>))
    requires
        i <= s@.len(),
    ensures
        r.0 == skip_digits(s@, i as nat),
        digits_value(s@, i as nat, r.0 as nat) <= usize::MAX ==> r.1 == Some(
            digits_value(s@, i as nat, r.0 as nat) as usize,
        ),
        digits_value(s@, i as nat, r.0 as nat) > usize::MAX ==> r.1 is None,
{
    let mut j: usize = i;
    let mut acc: Option<usize> = Some(0);
    while j < s.len() && 0x30 <= s[j] && s[j] <= 0x39
        invariant
            i <= j <= s@.len(),
            skip_digits(s@, j as nat) == skip_digits(s@, i as nat),
            digits_value(s@, i as nat, j as nat) <= usize::MAX ==> acc == Some(
                digits_value(s@, i as nat, j as nat) as usize,
            ),
            digits_value(s@, i as nat, j as nat) > usize::MAX ==> acc is None,
        decreases s@.len() - j,
    {
        let d: u128 = (s[j] - 0x30) as u128;
        acc = match acc {
            Some(a) => {
                let v: u128 = (a as u128) * 10 + d;
                if v <= usize::MAX as u128 {
                    Some(v as usize)
                } else {
                    None
                }
            },
            None => None,
        };
        j = j + 1;
    }
    (j, acc)
}

/// Parses one type specifier at `i`, as `spec_item` describes.
fn parse_item(s: &[u8], i: usize, mode: Mode) -> (r: Parsed<FmtType>)
    requires
        i <= s@.len(),
    ensures
        reports_item(r, spec_item(s@, i as nat, mode)),
    decreases s@.len() - i, 1nat,
{
    if i >= s.len() {
        return Parsed::NoMatch;
    }
    let j: usize = exec_skip_ws(s, i);
    proof {
        lemma_skip_ws(s@, i as nat);
    }
    if j >= s.len() {
        return Parsed::NoMatch;
    }
    match exec_prim_of(s[j], mode) {
        Some(p) => {
            return Parsed::Matched(FmtType::Prim(p), j + 1);
        },
        None => {},
    }
    if s[j] != 0x5b {
        return Parsed::NoMatch;
    }
    match parse_items(s, j + 1, mode) {
        Parsed::Matched(tys, k1) => {
            proof {
                lemma_items_bounds(s@, (j + 1) as nat, mode);
            }
            let k2: usize = exec_skip_ws(s, k1);
            proof {
                lemma_skip_ws(s@, k1 as nat);
            }
            if k2 < s.len() && s[k2] == 0x3b {
                let k3: usize = exec_skip_ws(s, k2 + 1);
                proof {
                    lemma_skip_ws(s@, (k2 + 1) as nat);
                }
                let (k4, count) = parse_count(s, k3);
                proof {
                    lemma_skip_digits(s@, k3 as nat);
                }
                let k5: usize = exec_skip_ws(s, k4);
                proof {
                    lemma_skip_ws(s@, k4 as nat);
                }
                if k4 == k3 {
                    Parsed::NoMatch
                } else {
                    match count {
                        None => Parsed::Overflow,
                        Some(n) => {
                            if k5 < s.len() && s[k5] == 0x5d {
                                let t = FmtType::Array(tys, n);
                                Parsed::Matched(t, k5 + 1)
                            } else {
                                Parsed::NoMatch
                            }
                        },
                    }
                }
            } else {
                Parsed::NoMatch
            }
        },
        Parsed::NoMatch => Parsed::NoMatch,
        Parsed::Overflow => Parsed::Overflow,
    }
}

/// Adds the specifiers `ts` in front of the outcome `r`.
pub open spec fn prepend(ts: Seq<Ty>, r: Step<Seq<Ty>>) -> Step<Seq<Ty>> {
    match r {
        Step::Matched(us, k) => Step::Matched(ts + us, k),
        Step::NoMatch => Step::NoMatch,
        Step::Overflow => Step::Overflow,
    }
}

/// Parses one or more type specifiers at `i`, as `spec_items` describes.
fn parse_items(s: &[u8], i: usize, mode: Mode) -> (r: Parsed<Vec<FmtType>>)
    requires
        i <= s@.len(),
    ensures
        reports_items(r, spec_items(s@, i as nat, mode)),
    decreases s@.len() - i, 2nat,
{
    let mut out: Vec<FmtType> = Vec::new();
    let mut pos: usize = i;
    assert(tys_view(out@) =~= seq![]);
    assert(prepend(seq![], spec_items_rest(s@, i as nat, mode)) =~= spec_items_rest(
        s@,
        i as nat,
        mode,
    )) by {
        match spec_items_rest(s@, i as nat, mode) {
            Step::Matched(us, k) => {
                assert(seq![] + us =~= us);
            },
            _ => {},
        }
    }
    loop
        invariant
            i <= pos <= s@.len(),
            out@.len() == 0 <==> pos == i,
            spec_items_rest(s@, i as nat, mode) == prepend(
                tys_view(out@),
                spec_items_rest(s@, pos as nat, mode),
            ),
        ensures
            i <= pos <= s@.len(),
            out@.len() == 0 <==> pos == i,
            spec_items_rest(s@, i as nat, mode) == Step::<Seq<Ty>>::Matched(
                tys_view(out@),
                pos as nat,
            ),
        decreases s@.len() - pos,
    {
        proof {
            lemma_item_bounds(s@, pos as nat, mode);
        }
        match parse_item(s, pos, mode) {
            Parsed::Matched(t, j) => {
                let ghost before = tys_view(out@);
                let ghost old_out = out@;
                let ghost tv = t@;
                let ghost rest = spec_items_rest(s@, j as nat, mode);
                out.push(t);
                assert(out@.drop_last() =~= old_out);
                assert(tys_view(out@) =~= before + seq![tv]);
                assert(prepend(before, prepend(seq![tv], rest)) == prepend(before + seq![tv], rest))
                    by {
                    match rest {
                        Step::Matched(us, k) => {
                            assert(before + (seq![tv] + us) =~= (before + seq![tv]) + us);
                        },
                        _ => {},
                    }
                }
                pos = j;
            },
            Parsed::NoMatch => {
                assert(spec_items_rest(s@, pos as nat, mode) == Step::<Seq<Ty>>::Matched(
                    seq![],
                    pos as nat,
                ));
                assert(tys_view(out@) + seq![] =~= tys_view(out@));
                assert(spec_items_rest(s@, i as nat, mode) == Step::<Seq<Ty>>::Matched(
                    tys_view(out@),
                    pos as nat,
                ));
                break ;
            },
            Parsed::Overflow => {
                proof {
                    lemma_items_from_rest(s@, i as nat, mode);
                }
                return Parsed::Overflow;
            },
        }
    }
    proof {
        lemma_items_from_rest(s@, i as nat, mode);
        lemma_tys_view(out@);
    }
    if out.len() == 0 {
        Parsed::NoMatch
    } else {
        proof {
            assert(tys_view(out@) =~= tys_view(out@) + seq![]);
        }
        Parsed::Matched(out, pos)
    }
}

/// Parses a whole format string in the given mode.
pub fn parse_format(fmt: &str, mode: Mode) -> (r: Result<Format, FormatError>)
    ensures
        match r {
            Ok(f) => spec_format(fmt.spec_bytes(), mode) == Ok::<FormatView, FormatError>(f@),
            Err(e) => spec_format(fmt.spec_bytes(), mode) == Err::<FormatView, FormatError>(e),
        },
{
    let s = fmt.as_bytes();
    let (order, i): (ByteOrder, usize) = if s.len() > 0 && s[0] == 0x3c {
        (ByteOrder::Little, 1)
    } else if s.len() > 0 && s[0] == 0x3e {
        (ByteOrder::Big, 1)
    } else if s.len() > 0 && s[0] == 0x40 {
        (ByteOrder::Native, 1)
    } else {
        (ByteOrder::Little, 0)
    };
    match parse_items(s, i, mode) {
        Parsed::Matched(types, j) => {
            proof {
                lemma_items_bounds(s@, i as nat, mode);
            }
            let k: usize = exec_skip_ws(s, j);
            if k == s.len() {
                Ok(Format { order, types })
            } else {
                Err(FormatError::Invalid)
            }
        },
        Parsed::NoMatch => Err(FormatError::Invalid),
        Parsed::Overflow => Err(FormatError::CountTooLarge),
    }
}

/// Parses a format string that describes values to pack.
pub fn fmt_pack(fmt: &str) -> (r: Result<Format, FormatError>)
    ensures
        match r {
            Ok(f) => spec_format(fmt.spec_bytes(), Mode::Pack) == Ok::<FormatView, FormatError>(f@),
            Err(e) => spec_format(fmt.spec_bytes(), Mode::Pack) == Err::<FormatView, FormatError>(e),
        },
{
    parse_format(fmt, Mode::Pack)
}

/// Parses a format string that describes bytes to unpack.
pub fn fmt_unpack(fmt: &str) -> (r: Result<Format, FormatError>)
    ensures
        match r {
            Ok(f) => spec_format(fmt.spec_bytes(), Mode::Unpack) == Ok::<FormatView, FormatError>(
                f@,
            ),
            Err(e) => spec_format(fmt.spec_bytes(), Mode::Unpack) == Err::<FormatView, FormatError>(
                e,
            ),
        },
{
    parse_format(fmt, Mode::Unpack)
}

} // verus!
