use vstd::prelude::*;
use vstd::string::StringExecFns;

verus! {

// What a model file says of itself and of the values it takes and gives, put
// into words for a reader.

/// The kind of number or value that a tensor is made of.
#[derive(Clone, Copy, Debug, PartialEq, Eq, Structural)]
pub enum TensorElementType {
    Bfloat16,
    Bool,
    Float16,
    Float32,
    Float64,
    Int16,
    Int32,
    Int64,
    Int8,
    String,
    Uint16,
    Uint32,
    Uint64,
    Uint8,
}

/// The short name of an element type.
pub open spec fn element_type_name(t: TensorElementType) -> Seq<char> {
    match t {
        TensorElementType::Bfloat16 => "bf16"@,
        TensorElementType::Bool => "bool"@,
        TensorElementType::Float16 => "f16"@,
        TensorElementType::Float32 => "f32"@,
        TensorElementType::Float64 => "f64"@,
        TensorElementType::Int16 => "i16"@,
        TensorElementType::Int32 => "i32"@,
        TensorElementType::Int64 => "i64"@,
        TensorElementType::Int8 => "i8"@,
        TensorElementType::String => "str"@,
        TensorElementType::Uint16 => "u16"@,
        TensorElementType::Uint32 => "u32"@,
        TensorElementType::Uint64 => "u64"@,
        TensorElementType::Uint8 => "u8"@,
    }
}

/// Gives the short name of an element type.
pub fn display_element_type(t: TensorElementType) -> (name: &'static str)
    ensures
        name@ == element_type_name(t),
{
    match t {
        TensorElementType::Bfloat16 => "bf16",
        TensorElementType::Bool => "bool",
        TensorElementType::Float16 => "f16",
        TensorElementType::Float32 => "f32",
        TensorElementType::Float64 => "f64",
        TensorElementType::Int16 => "i16",
        TensorElementType::Int32 => "i32",
        TensorElementType::Int64 => "i64",
        TensorElementType::Int8 => "i8",
        TensorElementType::String => "str",
        TensorElementType::Uint16 => "u16",
        TensorElementType::Uint32 => "u32",
        TensorElementType::Uint64 => "u64",
        TensorElementType::Uint8 => "u8",
    }
}

/// What kind of value a model takes or gives.
#[derive(Debug, PartialEq, Eq)]
pub enum ValueType {
    /// A tensor of one element type. A dimension of -1 is not fixed by the
    /// model.
    Tensor { ty: TensorElementType, dimensions: Vec<i64> },
    /// A map from values of one element type to values of another.
    Mapping { key: TensorElementType, value: TensorElementType },
    /// A sequence of values of one kind.
    Sequence(Box<ValueType>),
}

/// One input or output of a model.
#[derive(Debug, PartialEq, Eq)]
pub struct Outlet {
    pub name: String,
    pub value_type: ValueType,
}

/// What a model file says of itself.
#[derive(Debug, PartialEq, Eq)]
pub struct ModelInfo {
    pub name: Option<String>,
    pub description: Option<String>,
    pub producer: Option<String>,
    pub inputs: Vec<Outlet>,
    pub outputs: Vec<Outlet>,
}

/// The character of a decimal digit.
pub open spec fn digit_char(digit: int) -> char {
    if digit == 0 {
        '0'
    } else if digit == 1 {
        '1'
    } else if digit == 2 {
        '2'
    } else if digit == 3 {
        '3'
    } else if digit == 4 {
        '4'
    } else if digit == 5 {
        '5'
    } else if digit == 6 {
        '6'
    } else if digit == 7 {
        '7'
    } else if digit == 8 {
        '8'
    } else {
        '9'
    }
}

/// A number that is not negative, in decimal digits without leading zeros.
pub open spec fn decimal_text(n: int) -> Seq<char>
    decreases n,
{
    if n < 10 {
        seq![digit_char(n)]
    } else {
        decimal_text(n / 10).push(digit_char(n % 10))
    }
}

/// An integer in decimal digits, with a minus sign where it is negative.
pub open spec fn integer_text(n: int) -> Seq<char> {
    if n < 0 {
        seq!['-'] + decimal_text(-n)
    } else {
        decimal_text(n)
    }
}

/// One dimension of a tensor: its size, or `dyn` where the model leaves it
/// open.
pub open spec fn dimension_text(dimension: i64) -> Seq<char> {
    if dimension == -1 {
        "dyn"@
    } else {
        integer_text(dimension as int)
    }
}

/// The dimensions of a tensor, separated by a comma and a space.
pub open spec fn dimensions_text(dimensions: Seq<i64>) -> Seq<char>
    decreases dimensions.len(),
{
    if dimensions.len() == 0 {
        Seq::empty()
    } else if dimensions.len() == 1 {
        dimension_text(dimensions[0])
    } else {
        dimensions_text(dimensions.drop_last()) + ", "@ + dimension_text(dimensions.last())
    }
}

/// A kind of value in words: `Tensor<f32>(1, dyn, 64)`, `Map<i64, str>`,
/// `Sequence<...>` around the kind of its items.
pub open spec fn value_type_text(value: ValueType) -> Seq<char>
    decreases value,
{
    match value {
        ValueType::Tensor { ty, dimensions } => "Tensor<"@ + element_type_name(ty) + ">("@
            + dimensions_text(dimensions@) + ")"@,
        ValueType::Mapping { key, value } => "Map<"@ + element_type_name(key) + ", "@
            + element_type_name(value) + ">"@,
        ValueType::Sequence(inner) => "Sequence<"@ + value_type_text(*inner) + ">"@,
    }
}

/// The line of one input or output: three spaces, its number, a space, its
/// name, a colon, a space, its kind, and a line end.
pub open spec fn outlet_line(index: int, outlet: Outlet) -> Seq<char> {
    "   "@ + decimal_text(index) + " "@ + outlet.name@ + ":"@ + " "@ + value_type_text(
        outlet.value_type,
    ) + "\n"@
}

/// The lines of the first `upto` inputs or outputs, numbered from 0.
pub open spec fn outlet_lines(outlets: Seq<Outlet>, upto: int) -> Seq<char>
    decreases upto,
{
    if upto <= 0 {
        Seq::empty()
    } else {
        outlet_lines(outlets, upto - 1) + outlet_line(upto - 1, outlets[upto - 1])
    }
}

/// A line with a label before a text, or nothing where there is no text.
pub open spec fn labelled_line(label: Seq<char>, text: Option<String>) -> Seq<char> {
    match text {
        Some(t) => label + t@ + "\n"@,
        None => Seq::empty(),
    }
}

/// The whole description of a model: its name, its description and who
/// produced it, each on a line of its own where the model says it, then its
/// inputs and its outputs, one line each under a heading.
pub open spec fn model_info_text(info: ModelInfo) -> Seq<char> {
    labelled_line("Name: "@, info.name) + labelled_line("Description: "@, info.description)
        + labelled_line("Produced by "@, info.producer) + "Inputs:\n"@ + outlet_lines(
        info.inputs@,
        info.inputs@.len() as int,
    ) + "Outputs:\n"@ + outlet_lines(info.outputs@, info.outputs@.len() as int)
}

fn digit_text(digit: u64) -> (text: &'static str)
    requires
        digit < 10,
    ensures
        text@ == seq![digit_char(digit as int)],
{
    proof {
        reveal_strlit("0");
        reveal_strlit("1");
        reveal_strlit("2");
        reveal_strlit("3");
        reveal_strlit("4");
        reveal_strlit("5");
        reveal_strlit("6");
        reveal_strlit("7");
        reveal_strlit("8");
        reveal_strlit("9");
    }
    let text = if digit == 0 {
        "0"
    } else if digit == 1 {
        "1"
    } else if digit == 2 {
        "2"
    } else if digit == 3 {
        "3"
    } else if digit == 4 {
        "4"
    } else if digit == 5 {
        "5"
    } else if digit == 6 {
        "6"
    } else if digit == 7 {
        "7"
    } else if digit == 8 {
        "8"
    } else {
        "9"
    };
    assert(text@ =~= seq![digit_char(digit as int)]);
    text
}

/// Writes a number in decimal digits.
pub fn display_number(n: u64) -> (text: String)
    ensures
        text@ == decimal_text(n as int),
    decreases n,
{
    if n < 10 {
        String::from_str(digit_text(n))
    } else {
        let text = display_number(n / 10).concat(digit_text(n % 10));
        assert(text@ =~= decimal_text(n as int));
        text
    }
}

/// Writes an integer in decimal digits, with a minus sign where it is
/// negative.
pub fn display_integer(n: i64) -> (text: String)
    ensures
        text@ == integer_text(n as int),
{
    if n < 0 {
        let magnitude: u64 = (-(n + 1)) as u64 + 1;
        proof {
            reveal_strlit("-");
        }
        let text = String::from_str("-").concat(display_number(magnitude).as_str());
        assert(text@ =~= integer_text(n as int));
        text
    } else {
        display_number(n as u64)
    }
}

/// Writes the dimensions of a tensor.
pub fn display_dimensions(dimensions: &Vec<i64>) -> (text: String)
    ensures
        text@ == dimensions_text(dimensions@),
{
    let mut text = String::new();
    let mut i: usize = 0;
    while i < dimensions.len()
        invariant
            i <= dimensions.len(),
            text@ == dimensions_text(dimensions@.take(i as int)),
        decreases dimensions.len() - i,
    {
        let dimension = dimensions[i];
        proof {
            assert(dimensions@.take(i + 1).drop_last() == dimensions@.take(i as int));
            assert(dimensions@.take(i + 1).last() == dimension);
            if i == 0 {
                assert(dimensions@.take(1)[0] == dimension);
            }
        }
        if i > 0 {
            text.append(", ");
        }
        if dimension == -1 {
            text.append("dyn");
        } else {
            text.append(display_integer(dimension).as_str());
        }
        assert(text@ =~= dimensions_text(dimensions@.take(i + 1)));
        i = i + 1;
    }
    proof {
        assert(dimensions@.take(i as int) == dimensions@);
    }
    text
}

/// Puts a kind of value into words.
pub fn display_value_type(value: &ValueType) -> (text: String)
    ensures
        text@ == value_type_text(*value),
    decreases value,
{
    match value {
        ValueType::Tensor { ty, dimensions } => {
            let text = String::from_str("Tensor<").concat(display_element_type(*ty)).concat(
                ">(",
            ).concat(display_dimensions(dimensions).as_str()).concat(")");
            assert(text@ =~= value_type_text(*value));
            text
        },
        ValueType::Mapping { key, value: mapped } => {
            let text = String::from_str("Map<").concat(display_element_type(*key)).concat(
                ", ",
            ).concat(display_element_type(*mapped)).concat(">");
            assert(text@ =~= value_type_text(*value));
            text
        },
        ValueType::Sequence(inner) => {
            let text = String::from_str("Sequence<").concat(
                display_value_type(inner).as_str(),
            ).concat(">");
            assert(text@ =~= value_type_text(*value));
            text
        },
    }
}

fn append_labelled(report: &mut String, label: &str, text: &Option<String>)
    ensures
        final(report)@ == old(report)@ + labelled_line(label@, *text),
{
    match text {
        Some(t) => {
            report.append(label);
            report.append(t.as_str());
            report.append("\n");
            assert(report@ =~= old(report)@ + labelled_line(label@, *text));
        },
        None => {
            assert(report@ =~= old(report)@ + labelled_line(label@, *text));
        },
    }
}

fn append_outlets(report: &mut String, outlets: &Vec<Outlet>)
    ensures
        final(report)@ == old(report)@ + outlet_lines(outlets@, outlets@.len() as int),
{
    let mut i: usize = 0;
    assert(report@ =~= old(report)@ + outlet_lines(outlets@, 0));
    while i < outlets.len()
        invariant
            i <= outlets.len(),
            report@ == old(report)@ + outlet_lines(outlets@, i as int),
        decreases outlets.len() - i,
    {
        let outlet = &outlets[i];
        let ghost before = report@;
        report.append("   ");
        report.append(display_number(i as u64).as_str());
        report.append(" ");
        report.append(outlet.name.as_str());
        report.append(":");
        report.append(" ");
        report.append(display_value_type(&outlet.value_type).as_str());
        report.append("\n");
        assert(report@ =~= before + outlet_line(i as int, outlets@[i as int]));
        assert(report@ =~= old(report)@ + outlet_lines(outlets@, i + 1));
        i = i + 1;
    }
}

/// Puts into words what a model file says of itself.
pub fn get_model_info(info: &ModelInfo) -> (report: String)
    ensures
        report@ == model_info_text(*info),
{
    let mut report = String::new();
    append_labelled(&mut report, "Name: ", &info.name);
    append_labelled(&mut report, "Description: ", &info.description);
    append_labelled(&mut report, "Produced by ", &info.producer);
    report.append("Inputs:\n");
    append_outlets(&mut report, &info.inputs);
    report.append("Outputs:\n");
    append_outlets(&mut report, &info.outputs);
    assert(report@ =~= model_info_text(*info));
    report
}

} // verus!
