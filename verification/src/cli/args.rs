//! Arguments of the command line.

use crate::arith::Vec3;
use crate::single::Single;
use crate::text::{decimal, push_decimal, quote, quoted, trim, trimmed};
use vstd::prelude::*;
use vstd::string::{StrSliceExecFns, StringExecFns};

verus! {

/// A size in pixels.
#[derive(Clone, Copy, Debug, PartialEq, Eq, Structural)]
pub struct Resolution {
    pub width: u32,
    pub height: u32,
}

/// Why a text is no number.
#[derive(Clone, Copy, Debug, PartialEq, Eq, Structural)]
pub enum NumberError {
    Empty,
    InvalidDigit,
    TooLarge,
}

/// Why a text is no size.
#[derive(Clone, Copy, Debug, PartialEq, Eq, Structural)]
pub enum ResolutionError {
    /// There is no separator.
    Shape,
    Width(NumberError),
    Height(NumberError),
    /// One of the sides is zero.
    Zero,
}

/// The value of a text of decimal digits.
pub open spec fn value_of(s: Seq<char>) -> int
    decreases s.len(),
{
    if s.len() == 0 {
        0
    } else {
        value_of(s.drop_last()) * 10 + (s.last() as u32 - 48)
    }
}

pub open spec fn is_digit(c: char) -> bool {
    48 <= c as u32 <= 57
}

/// What is wrong with the first `n` characters, read from the left: the first
/// that is no digit, or the first at which the number gets too large.
pub open spec fn digit_error(s: Seq<char>, n: nat) -> Option<NumberError>
    decreases n,
{
    if n == 0 {
        None
    } else {
        match digit_error(s, (n - 1) as nat) {
            Some(e) => Some(e),
            None => if !is_digit(s[n - 1]) {
                Some(NumberError::InvalidDigit)
            } else if value_of(s.take(n as int)) > u32::MAX {
                Some(NumberError::TooLarge)
            } else {
                None
            },
        }
    }
}

/// The digits of a number: what follows a plus sign, if there is one.
pub open spec fn digits_of(s: Seq<char>) -> Seq<char> {
    if s.len() > 1 && s[0] == '+' {
        s.skip(1)
    } else {
        s
    }
}

/// The number that a text stands for.
pub open spec fn number(s: Seq<char>) -> Result<u32, NumberError> {
    if s.len() == 0 {
        Err(NumberError::Empty)
    } else {
        let digits = digits_of(s);
        match digit_error(digits, digits.len()) {
            Some(e) => Err(e),
            None => Ok(value_of(digits) as u32),
        }
    }
}

/// Read a number: decimal digits, after a plus sign or not.
pub fn parse_number(s: &str) -> (r: Result<u32, NumberError>)
    ensures
        r == number(s@),
{
    let n: usize = s.unicode_len();
    if n == 0 {
        return Err(NumberError::Empty);
    }
    let start: usize = if n > 1 && s.get_char(0) == '+' {
        1
    } else {
        0
    };
    let ghost digits = digits_of(s@);
    assert(digits =~= s@.skip(start as int));
    let mut value: u64 = 0;
    let mut i: usize = start;
    assert(digits.take(0) =~= Seq::<char>::empty());
    while i < n
        invariant
            start <= i <= n,
            n == s@.len(),
            start <= 1,
            digits == s@.skip(start as int),
            digits == digits_of(s@),
            n > 0,
            digit_error(digits, (i - start) as nat) is None,
            value == value_of(digits.take(i - start)),
            value <= u32::MAX,
        decreases n - i,
    {
        let c: char = s.get_char(i);
        let code: u32 = c as u32;
        let ghost k = (i - start) as nat;
        assert(digits[k as int] == c);
        assert(digits.take(k as int + 1).drop_last() =~= digits.take(k as int));
        if code < 48 || code > 57 {
            proof {
                assert(digit_error(digits, k + 1) == Some(NumberError::InvalidDigit));
                lemma_error_stays(digits, k + 1, digits.len());
            }
            return Err(NumberError::InvalidDigit);
        }
        value = value * 10 + (code - 48) as u64;
        if value > 0xffff_ffff {
            proof {
                assert(digit_error(digits, k + 1) == Some(NumberError::TooLarge));
                lemma_error_stays(digits, k + 1, digits.len());
            }
            return Err(NumberError::TooLarge);
        }
        i = i + 1;
    }
    assert(digits.take(n - start) =~= digits);
    Ok(value as u32)
}

proof fn lemma_error_stays(s: Seq<char>, k: nat, n: nat)
    requires
        k <= n,
        digit_error(s, k) is Some,
    ensures
        digit_error(s, n) == digit_error(s, k),
    decreases n,
{
    if k < n {
        lemma_error_stays(s, k, (n - 1) as nat);
    }
}

/// The first place of a character in a text.
pub open spec fn first_place(s: Seq<char>, c: char, i: int) -> bool {
    &&& 0 <= i < s.len()
    &&& s[i] == c
    &&& forall|j: int| 0 <= j < i ==> #[trigger] s[j] != c
}

/// The size that a text stands for: two numbers with an `x` between them, with
/// or without white space around each.
pub open spec fn resolution(s: Seq<char>) -> Result<Resolution, ResolutionError> {
    if !s.contains('x') {
        Err(ResolutionError::Shape)
    } else {
        let i = choose|i: int| first_place(s, 'x', i);
        match number(trimmed(s.take(i))) {
            Err(e) => Err(ResolutionError::Width(e)),
            Ok(width) => match number(trimmed(s.skip(i + 1))) {
                Err(e) => Err(ResolutionError::Height(e)),
                Ok(height) => if width == 0 || height == 0 {
                    Err(ResolutionError::Zero)
                } else {
                    Ok(Resolution { width, height })
                },
            },
        }
    }
}

fn find_char(s: &str, c: char, n: usize) -> (r: Option<usize>)
    requires
        n == s@.len(),
    ensures
        match r {
            Some(i) => first_place(s@, c, i as int),
            None => !s@.contains(c),
        },
{
    let mut i: usize = 0;
    while i < n
        invariant
            i <= n,
            n == s@.len(),
            forall|j: int| 0 <= j < i ==> #[trigger] s@[j] != c,
        decreases n - i,
    {
        if s.get_char(i) == c {
            return Some(i);
        }
        i = i + 1;
    }
    None
}

/// Read a size, written as WIDTHxHEIGHT.
pub fn parse_resolution(s: &str) -> (r: Result<Resolution, ResolutionError>)
    ensures
        r == resolution(s@),
{
    let n: usize = s.unicode_len();
    let at: usize = match find_char(s, 'x', n) {
        Some(at) => at,
        None => {
            return Err(ResolutionError::Shape);
        },
    };
    proof {
        assert(s@.contains('x')) by {
            assert(s@[at as int] == 'x');
        }
        let i = choose|i: int| first_place(s@, 'x', i);
        assert(first_place(s@, 'x', i));
        if i < at {
            assert(s@[i] != 'x');
        }
        if at < i {
            assert(s@[at as int] != 'x');
        }
        assert(s@.subrange(0, at as int) =~= s@.take(at as int));
        assert(s@.subrange(at + 1, n as int) =~= s@.skip(at + 1));
    }
    let width: u32 = match parse_number(trim(s.substring_char(0, at))) {
        Ok(width) => width,
        Err(e) => {
            return Err(ResolutionError::Width(e));
        },
    };
    let height: u32 = match parse_number(trim(s.substring_char(at + 1, n))) {
        Ok(height) => height,
        Err(e) => {
            return Err(ResolutionError::Height(e));
        },
    };
    if width == 0 || height == 0 {
        return Err(ResolutionError::Zero);
    }
    Ok(Resolution { width, height })
}

impl NumberError {
    pub open spec fn text(self) -> Seq<char> {
        match self {
            NumberError::Empty => "cannot parse integer from empty string"@,
            NumberError::InvalidDigit => "invalid digit found in string"@,
            NumberError::TooLarge => "number too large to fit in target type"@,
        }
    }

    pub fn message(&self) -> (r: &'static str)
        ensures
            r@ == self.text(),
    {
        match self {
            NumberError::Empty => "cannot parse integer from empty string",
            NumberError::InvalidDigit => "invalid digit found in string",
            NumberError::TooLarge => "number too large to fit in target type",
        }
    }
}

impl ResolutionError {
    /// The text shown for an error; `quoted` is the argument in quotes.
    pub open spec fn text(self, quoted: Seq<char>) -> Seq<char> {
        match self {
            ResolutionError::Shape => "expected WIDTHxHEIGHT, got "@ + quoted,
            ResolutionError::Width(e) => "width: "@ + e.text(),
            ResolutionError::Height(e) => "height: "@ + e.text(),
            ResolutionError::Zero => "resolution must be > 0 in both dimensions"@,
        }
    }

    pub fn message(&self, quoted: &str) -> (r: String)
        ensures
            r@ == self.text(quoted@),
    {
        match self {
            ResolutionError::Shape => {
                let mut out: String = String::from_str("expected WIDTHxHEIGHT, got ");
                out.append(quoted);
                out
            },
            ResolutionError::Width(e) => {
                let mut out: String = String::from_str("width: ");
                out.append(e.message());
                out
            },
            ResolutionError::Height(e) => {
                let mut out: String = String::from_str("height: ");
                out.append(e.message());
                out
            },
            ResolutionError::Zero => String::from_str("resolution must be > 0 in both dimensions"),
        }
    }
}

/// The parts of a text between commas.
pub open spec fn parts(s: Seq<char>) -> Seq<Seq<char>>
    decreases s.len(),
{
    if s.len() == 0 {
        seq![Seq::<char>::empty()]
    } else {
        let before = parts(s.drop_last());
        if s.last() == ',' {
            before.push(Seq::empty())
        } else {
            before.update(before.len() - 1, before.last().push(s.last()))
        }
    }
}

proof fn lemma_parts_not_empty(s: Seq<char>)
    ensures
        parts(s).len() >= 1,
    decreases s.len(),
{
    if s.len() > 0 {
        lemma_parts_not_empty(s.drop_last());
    }
}

/// Text between two places does not hold a comma, so that it is one part.
proof fn lemma_last_part(s: Seq<char>, from: int, to: int)
    requires
        0 <= from <= to <= s.len(),
        forall|i: int| from <= i < to ==> s[i] != ',',
        from == 0 || s[from - 1] == ',',
    ensures
        parts(s.take(to)).last() == s.subrange(from, to),
        from == 0 ==> parts(s.take(to)).len() == 1,
        from > 0 ==> parts(s.take(to)) == parts(s.take(from - 1)).push(s.subrange(from, to)),
    decreases to - from,
{
    lemma_parts_not_empty(s.take(to));
    if to == from {
        assert(s.subrange(from, to) =~= Seq::<char>::empty());
        if from == 0 {
            assert(s.take(0) =~= Seq::<char>::empty());
        } else {
            assert(s.take(from).drop_last() =~= s.take(from - 1));
            assert(s.take(from).last() == ',');
        }
    } else {
        lemma_last_part(s, from, to - 1);
        lemma_parts_not_empty(s.take(to - 1));
        assert(s.take(to).drop_last() =~= s.take(to - 1));
        assert(s.take(to).last() == s[to - 1]);
        assert(s.subrange(from, to) =~= s.subrange(from, to - 1).push(s[to - 1]));
        if from > 0 {
            let before = parts(s.take(from - 1)).push(s.subrange(from, to - 1));
            assert(before.update(before.len() - 1, s.subrange(from, to)) =~= parts(
                s.take(from - 1),
            ).push(s.subrange(from, to)));
        }
    }
}

/// Three components of an argument, each without white space at its ends.
#[derive(Debug)]
pub struct Components {
    pub x: String,
    pub y: String,
    pub z: String,
}

fn own(s: &str) -> (r: String)
    ensures
        r@ == s@,
{
    String::from_str(s)
}

/// Split an argument at its commas. There have to be three parts.
pub fn split_components(s: &str) -> (r: Option<Components>)
    ensures
        r is Some <==> parts(s@).len() == 3,
        r matches Some(c) ==> {
            &&& c.x@ == trimmed(parts(s@)[0])
            &&& c.y@ == trimmed(parts(s@)[1])
            &&& c.z@ == trimmed(parts(s@)[2])
        },
{
    let n: usize = s.unicode_len();
    let mut pieces: Vec<String> = Vec::new();
    let mut from: usize = 0;
    let mut i: usize = 0;
    assert(s@.take(0) =~= Seq::<char>::empty());
    while i < n
        invariant
            from <= i <= n,
            n == s@.len(),
            from == 0 || s@[from - 1] == ',',
            forall|k: int| from <= k < i ==> s@[k] != ',',
            pieces@.len() + 1 == parts(s@.take(i as int)).len(),
            forall|k: int|
                0 <= k < pieces@.len() ==> (#[trigger] pieces@[k])@ == parts(s@.take(i as int))[k],
        decreases n - i,
    {
        proof {
            lemma_last_part(s@, from as int, i as int);
            lemma_parts_not_empty(s@.take(i as int));
            assert(s@.take(i + 1).drop_last() =~= s@.take(i as int));
            assert(s@.take(i + 1).last() == s@[i as int]);
        }
        if s.get_char(i) == ',' {
            pieces.push(own(s.substring_char(from, i)));
            from = i + 1;
        }
        i = i + 1;
    }
    proof {
        lemma_last_part(s@, from as int, n as int);
        assert(s@.take(n as int) =~= s@);
    }
    pieces.push(own(s.substring_char(from, n)));
    if pieces.len() != 3 {
        return None;
    }
    Some(
        Components {
            x: own(trim(pieces[0].as_str())),
            y: own(trim(pieces[1].as_str())),
            z: own(trim(pieces[2].as_str())),
        },
    )
}

/// The text shown where an argument has not three parts; `quoted` is the
/// argument in quotes.
pub fn shape_message(quoted: &str) -> (r: String)
    ensures
        r@ == "expected 'x,y,z', got "@ + quoted@,
{
    let mut out: String = String::from_str("expected 'x,y,z', got ");
    out.append(quoted);
    out
}

/// The text shown where a component is no number.
pub fn component_message(index: u64, error: &str) -> (r: String)
    ensures
        r@ == "component "@ + decimal(index as nat) + ": "@ + error@,
{
    let mut out: String = String::from_str("component ");
    push_decimal(&mut out, index);
    out.append(": ");
    out.append(error);
    out
}

/// Read a size, written as WIDTHxHEIGHT, or tell what is wrong with it.
pub fn parse_resolution_arg(s: &str) -> (r: Result<Resolution, String>)
    ensures
        match resolution(s@) {
            Ok(size) => r == Ok::<Resolution, String>(size),
            Err(e) => r.is_err() && r->Err_0@ == e.text(quoted(s@)),
        },
{
    match parse_resolution(s) {
        Ok(size) => Ok(size),
        Err(e) => {
            let quoted: String = quote(s);
            Err(e.message(quoted.as_str()))
        },
    }
}

/// A vector as an argument.
#[derive(Clone, Copy, Debug, PartialEq, Eq, Structural)]
pub struct Vec3Arg(pub Vec3);

/// Whatever `parse` makes of a text is what `h` gives.
pub open spec fn parses<P: Fn(String) -> Result<Single, String>>(
    parse: P,
    h: spec_fn(Seq<char>) -> Result<Single, Seq<char>>,
) -> bool {
    forall|s: String, r: Result<Single, String>| #[trigger]
        call_ensures(parse, (s,), r) ==> match r {
            Ok(v) => h(s@) == Ok::<Single, Seq<char>>(v),
            Err(e) => h(s@) == Err::<Single, Seq<char>>(e@),
        }
}

/// The text for component `index` that could not be read.
pub open spec fn component_text(index: nat, error: Seq<char>) -> Seq<char> {
    "component "@ + decimal(index) + ": "@ + error
}

/// The vector that a text stands for: three numbers with commas between them.
/// The first that cannot be read is told.
pub open spec fn vector(s: Seq<char>, h: spec_fn(Seq<char>) -> Result<Single, Seq<char>>) -> Result<
    Vec3,
    Seq<char>,
> {
    if parts(s).len() != 3 {
        Err("expected 'x,y,z', got "@ + quoted(s))
    } else {
        match h(trimmed(parts(s)[0])) {
            Err(e) => Err(component_text(0, e)),
            Ok(x) => match h(trimmed(parts(s)[1])) {
                Err(e) => Err(component_text(1, e)),
                Ok(y) => match h(trimmed(parts(s)[2])) {
                    Err(e) => Err(component_text(2, e)),
                    Ok(z) => Ok(Vec3 { x, y, z }),
                },
            },
        }
    }
}

/// Read a vector, written as X,Y,Z. `parse` reads a number.
pub fn parse_vec3<P: Fn(String) -> Result<Single, String>>(s: &str, parse: &P) -> (r: Result<
    Vec3Arg,
    String,
>)
    requires
        forall|text: String| #[trigger] call_requires(*parse, (text,)),
    ensures
        parts(s@).len() != 3 ==> r.is_err() && r->Err_0@ == "expected 'x,y,z', got "@ + quoted(s@),
        forall|h: spec_fn(Seq<char>) -> Result<Single, Seq<char>>| #[trigger]
            parses(*parse, h) ==> match vector(s@, h) {
                Ok(v) => r == Ok::<Vec3Arg, String>(Vec3Arg(v)),
                Err(e) => r.is_err() && r->Err_0@ == e,
            },
{
    match split_components(s) {
        Some(components) => {
            let x: Single = match parse(components.x) {
                Ok(x) => x,
                Err(e) => {
                    return Err(component_message(0, e.as_str()));
                },
            };
            let y: Single = match parse(components.y) {
                Ok(y) => y,
                Err(e) => {
                    return Err(component_message(1, e.as_str()));
                },
            };
            let z: Single = match parse(components.z) {
                Ok(z) => z,
                Err(e) => {
                    return Err(component_message(2, e.as_str()));
                },
            };
            Ok(Vec3Arg(Vec3 { x, y, z }))
        },
        None => {
            let quoted: String = quote(s);
            Err(shape_message(quoted.as_str()))
        },
    }
}

/// What the arguments say, as far as it decides what is run.
#[derive(Clone, Copy, Debug, PartialEq, Eq, Structural)]
pub struct Cli {
    /// There is something to load.
    pub has_source: bool,
    pub with_viewer: bool,
    /// There is a file to render to.
    pub has_render_output: bool,
}

/// An argument that is missing beside others.
#[derive(Clone, Copy, Debug, PartialEq, Eq, Structural)]
pub enum MissingSource {
    ForRenderOutput,
    WithoutViewer,
}

impl MissingSource {
    pub fn message(&self) -> (r: &'static str)
        ensures
            r@ == match *self {
                MissingSource::ForRenderOutput => "When --render-output is set, --source must be provided"@,
                MissingSource::WithoutViewer => "When --with-viewer is false, --source must be provided"@,
            },
    {
        match self {
            MissingSource::ForRenderOutput => "When --render-output is set, --source must be provided",
            MissingSource::WithoutViewer => "When --with-viewer is false, --source must be provided",
        }
    }
}

/// What the program does.
#[derive(Clone, Copy, Debug, PartialEq, Eq, Structural)]
pub enum RunMode {
    /// Render a single image.
    Render,
    Viewer,
    /// Train, with progress on the terminal.
    Terminal,
}

impl Cli {
    /// Check that there is something to load where it is needed.
    pub fn validate(self) -> (r: Result<Cli, MissingSource>)
        ensures
            self.has_render_output && !self.has_source ==> r == Err::<Cli, MissingSource>(
                MissingSource::ForRenderOutput,
            ),
            !self.has_render_output && !self.with_viewer && !self.has_source ==> r == Err::<
                Cli,
                MissingSource,
            >(MissingSource::WithoutViewer),
            self.has_source || (!self.has_render_output && self.with_viewer) ==> r == Ok::<
                Cli,
                MissingSource,
            >(self),
    {
        if self.has_render_output && !self.has_source {
            return Err(MissingSource::ForRenderOutput);
        }
        if !self.with_viewer && !self.has_source {
            return Err(MissingSource::WithoutViewer);
        }
        Ok(self)
    }

    pub open spec fn mode(self) -> RunMode {
        if self.has_render_output {
            RunMode::Render
        } else if self.with_viewer {
            RunMode::Viewer
        } else {
            RunMode::Terminal
        }
    }

    /// What to run.
    pub fn run_mode(&self) -> (r: RunMode)
        ensures
            r == self.mode(),
    {
        if self.has_render_output {
            RunMode::Render
        } else if self.with_viewer {
            RunMode::Viewer
        } else {
            RunMode::Terminal
        }
    }
}

} // verus!
