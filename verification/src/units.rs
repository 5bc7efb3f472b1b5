//! Units of measure: which unit a name stands for and which quantity it
//! measures. Data units and `kN` are told apart by case (`B` byte, `b` bit,
//! `KB` vs `KiB`, `kN` vs `kn` knots); every other name is matched without
//! regard to case. Months and years are refused: they are no fixed length.
use crate::text::{chars_of, equals_text, string_from_chars, trim_chars, trimmed, append_chars};
use vstd::prelude::*;

verus! {

/// The quantities a unit can measure.
#[derive(PartialEq, Eq, Structural, Clone, Copy, Debug)]
pub enum QuantityKind {
    Length,
    Mass,
    Temperature,
    Volume,
    Speed,
    Area,
    Duration,
    Data,
    Pressure,
    Energy,
    Power,
    Force,
    Angle,
}

pub open spec fn quantity_name(q: QuantityKind) -> Seq<char> {
    match q {
        QuantityKind::Length => "length"@,
        QuantityKind::Mass => "mass"@,
        QuantityKind::Temperature => "temperature"@,
        QuantityKind::Volume => "volume"@,
        QuantityKind::Speed => "speed"@,
        QuantityKind::Area => "area"@,
        QuantityKind::Duration => "duration"@,
        QuantityKind::Data => "data"@,
        QuantityKind::Pressure => "pressure"@,
        QuantityKind::Energy => "energy"@,
        QuantityKind::Power => "power"@,
        QuantityKind::Force => "force"@,
        QuantityKind::Angle => "angle"@,
    }
}

impl QuantityKind {
    /// The quantity's name in lower case.
    pub fn name(&self) -> (r: &'static str)
        ensures
            r@ == quantity_name(*self),
    {
        match self {
            QuantityKind::Length => "length",
            QuantityKind::Mass => "mass",
            QuantityKind::Temperature => "temperature",
            QuantityKind::Volume => "volume",
            QuantityKind::Speed => "speed",
            QuantityKind::Area => "area",
            QuantityKind::Duration => "duration",
            QuantityKind::Data => "data",
            QuantityKind::Pressure => "pressure",
            QuantityKind::Energy => "energy",
            QuantityKind::Power => "power",
            QuantityKind::Force => "force",
            QuantityKind::Angle => "angle",
        }
    }
}

/// The units known by name.
#[derive(PartialEq, Eq, Structural, Clone, Copy, Debug)]
pub enum Unit {
    Meter,
    Kilometer,
    Centimeter,
    Millimeter,
    Mile,
    Yard,
    Foot,
    Inch,
    NauticalMile,
    Kilogram,
    Gram,
    Milligram,
    Tonne,
    Pound,
    Ounce,
    Stone,
    Celsius,
    Fahrenheit,
    Kelvin,
    Liter,
    Milliliter,
    CubicMeter,
    Gallon,
    Quart,
    Pint,
    Cup,
    FluidOunce,
    MeterPerSecond,
    KilometerPerHour,
    MilePerHour,
    Knot,
    SquareMeter,
    SquareKilometer,
    Hectare,
    Acre,
    SquareFoot,
    Millisecond,
    Second,
    Minute,
    Hour,
    Day,
    Week,
    Pascal,
    Kilopascal,
    Bar,
    Atmosphere,
    Psi,
    MillimeterOfMercury,
    Joule,
    Kilojoule,
    Calorie,
    Kilocalorie,
    WattHour,
    KilowattHour,
    Btu,
    Watt,
    Kilowatt,
    Megawatt,
    Horsepower,
    Newton,
    Kilonewton,
    PoundForce,
    Radian,
    Degree,
    Gradian,
    Byte,
    Bit,
    Kilobyte,
    Megabyte,
    Gigabyte,
    Terabyte,
    Kibibyte,
    Mebibyte,
    Gibibyte,
    Tebibyte,
}

/// The quantity a unit measures.
pub open spec fn quantity_of(u: Unit) -> QuantityKind {
    match u {
        Unit::Meter => QuantityKind::Length,
        Unit::Kilometer => QuantityKind::Length,
        Unit::Centimeter => QuantityKind::Length,
        Unit::Millimeter => QuantityKind::Length,
        Unit::Mile => QuantityKind::Length,
        Unit::Yard => QuantityKind::Length,
        Unit::Foot => QuantityKind::Length,
        Unit::Inch => QuantityKind::Length,
        Unit::NauticalMile => QuantityKind::Length,
        Unit::Kilogram => QuantityKind::Mass,
        Unit::Gram => QuantityKind::Mass,
        Unit::Milligram => QuantityKind::Mass,
        Unit::Tonne => QuantityKind::Mass,
        Unit::Pound => QuantityKind::Mass,
        Unit::Ounce => QuantityKind::Mass,
        Unit::Stone => QuantityKind::Mass,
        Unit::Celsius => QuantityKind::Temperature,
        Unit::Fahrenheit => QuantityKind::Temperature,
        Unit::Kelvin => QuantityKind::Temperature,
        Unit::Liter => QuantityKind::Volume,
        Unit::Milliliter => QuantityKind::Volume,
        Unit::CubicMeter => QuantityKind::Volume,
        Unit::Gallon => QuantityKind::Volume,
        Unit::Quart => QuantityKind::Volume,
        Unit::Pint => QuantityKind::Volume,
        Unit::Cup => QuantityKind::Volume,
        Unit::FluidOunce => QuantityKind::Volume,
        Unit::MeterPerSecond => QuantityKind::Speed,
        Unit::KilometerPerHour => QuantityKind::Speed,
        Unit::MilePerHour => QuantityKind::Speed,
        Unit::Knot => QuantityKind::Speed,
        Unit::SquareMeter => QuantityKind::Area,
        Unit::SquareKilometer => QuantityKind::Area,
        Unit::Hectare => QuantityKind::Area,
        Unit::Acre => QuantityKind::Area,
        Unit::SquareFoot => QuantityKind::Area,
        Unit::Millisecond => QuantityKind::Duration,
        Unit::Second => QuantityKind::Duration,
        Unit::Minute => QuantityKind::Duration,
        Unit::Hour => QuantityKind::Duration,
        Unit::Day => QuantityKind::Duration,
        Unit::Week => QuantityKind::Duration,
        Unit::Pascal => QuantityKind::Pressure,
        Unit::Kilopascal => QuantityKind::Pressure,
        Unit::Bar => QuantityKind::Pressure,
        Unit::Atmosphere => QuantityKind::Pressure,
        Unit::Psi => QuantityKind::Pressure,
        Unit::MillimeterOfMercury => QuantityKind::Pressure,
        Unit::Joule => QuantityKind::Energy,
        Unit::Kilojoule => QuantityKind::Energy,
        Unit::Calorie => QuantityKind::Energy,
        Unit::Kilocalorie => QuantityKind::Energy,
        Unit::WattHour => QuantityKind::Energy,
        Unit::KilowattHour => QuantityKind::Energy,
        Unit::Btu => QuantityKind::Energy,
        Unit::Watt => QuantityKind::Power,
        Unit::Kilowatt => QuantityKind::Power,
        Unit::Megawatt => QuantityKind::Power,
        Unit::Horsepower => QuantityKind::Power,
        Unit::Newton => QuantityKind::Force,
        Unit::Kilonewton => QuantityKind::Force,
        Unit::PoundForce => QuantityKind::Force,
        Unit::Radian => QuantityKind::Angle,
        Unit::Degree => QuantityKind::Angle,
        Unit::Gradian => QuantityKind::Angle,
        Unit::Byte => QuantityKind::Data,
        Unit::Bit => QuantityKind::Data,
        Unit::Kilobyte => QuantityKind::Data,
        Unit::Megabyte => QuantityKind::Data,
        Unit::Gigabyte => QuantityKind::Data,
        Unit::Terabyte => QuantityKind::Data,
        Unit::Kibibyte => QuantityKind::Data,
        Unit::Mebibyte => QuantityKind::Data,
        Unit::Gibibyte => QuantityKind::Data,
        Unit::Tebibyte => QuantityKind::Data,
    }
}

/// The quantity a unit measures.
pub fn unit_quantity(u: Unit) -> (q: QuantityKind)
    ensures
        q == quantity_of(u),
{
    match u {
        Unit::Meter => QuantityKind::Length,
        Unit::Kilometer => QuantityKind::Length,
        Unit::Centimeter => QuantityKind::Length,
        Unit::Millimeter => QuantityKind::Length,
        Unit::Mile => QuantityKind::Length,
        Unit::Yard => QuantityKind::Length,
        Unit::Foot => QuantityKind::Length,
        Unit::Inch => QuantityKind::Length,
        Unit::NauticalMile => QuantityKind::Length,
        Unit::Kilogram => QuantityKind::Mass,
        Unit::Gram => QuantityKind::Mass,
        Unit::Milligram => QuantityKind::Mass,
        Unit::Tonne => QuantityKind::Mass,
        Unit::Pound => QuantityKind::Mass,
        Unit::Ounce => QuantityKind::Mass,
        Unit::Stone => QuantityKind::Mass,
        Unit::Celsius => QuantityKind::Temperature,
        Unit::Fahrenheit => QuantityKind::Temperature,
        Unit::Kelvin => QuantityKind::Temperature,
        Unit::Liter => QuantityKind::Volume,
        Unit::Milliliter => QuantityKind::Volume,
        Unit::CubicMeter => QuantityKind::Volume,
        Unit::Gallon => QuantityKind::Volume,
        Unit::Quart => QuantityKind::Volume,
        Unit::Pint => QuantityKind::Volume,
        Unit::Cup => QuantityKind::Volume,
        Unit::FluidOunce => QuantityKind::Volume,
        Unit::MeterPerSecond => QuantityKind::Speed,
        Unit::KilometerPerHour => QuantityKind::Speed,
        Unit::MilePerHour => QuantityKind::Speed,
        Unit::Knot => QuantityKind::Speed,
        Unit::SquareMeter => QuantityKind::Area,
        Unit::SquareKilometer => QuantityKind::Area,
        Unit::Hectare => QuantityKind::Area,
        Unit::Acre => QuantityKind::Area,
        Unit::SquareFoot => QuantityKind::Area,
        Unit::Millisecond => QuantityKind::Duration,
        Unit::Second => QuantityKind::Duration,
        Unit::Minute => QuantityKind::Duration,
        Unit::Hour => QuantityKind::Duration,
        Unit::Day => QuantityKind::Duration,
        Unit::Week => QuantityKind::Duration,
        Unit::Pascal => QuantityKind::Pressure,
        Unit::Kilopascal => QuantityKind::Pressure,
        Unit::Bar => QuantityKind::Pressure,
        Unit::Atmosphere => QuantityKind::Pressure,
        Unit::Psi => QuantityKind::Pressure,
        Unit::MillimeterOfMercury => QuantityKind::Pressure,
        Unit::Joule => QuantityKind::Energy,
        Unit::Kilojoule => QuantityKind::Energy,
        Unit::Calorie => QuantityKind::Energy,
        Unit::Kilocalorie => QuantityKind::Energy,
        Unit::WattHour => QuantityKind::Energy,
        Unit::KilowattHour => QuantityKind::Energy,
        Unit::Btu => QuantityKind::Energy,
        Unit::Watt => QuantityKind::Power,
        Unit::Kilowatt => QuantityKind::Power,
        Unit::Megawatt => QuantityKind::Power,
        Unit::Horsepower => QuantityKind::Power,
        Unit::Newton => QuantityKind::Force,
        Unit::Kilonewton => QuantityKind::Force,
        Unit::PoundForce => QuantityKind::Force,
        Unit::Radian => QuantityKind::Angle,
        Unit::Degree => QuantityKind::Angle,
        Unit::Gradian => QuantityKind::Angle,
        Unit::Byte => QuantityKind::Data,
        Unit::Bit => QuantityKind::Data,
        Unit::Kilobyte => QuantityKind::Data,
        Unit::Megabyte => QuantityKind::Data,
        Unit::Gigabyte => QuantityKind::Data,
        Unit::Terabyte => QuantityKind::Data,
        Unit::Kibibyte => QuantityKind::Data,
        Unit::Mebibyte => QuantityKind::Data,
        Unit::Gibibyte => QuantityKind::Data,
        Unit::Tebibyte => QuantityKind::Data,
    }
}

/// The names matched with their case: data units and `kN`.
pub open spec fn exact_unit(t: Seq<char>) -> Option<Unit> {
    if t == "B"@ || t == "byte"@ || t == "bytes"@ {
        Some(Unit::Byte)
    } else if t == "b"@ || t == "bit"@ || t == "bits"@ {
        Some(Unit::Bit)
    } else if t == "KB"@ {
        Some(Unit::Kilobyte)
    } else if t == "MB"@ {
        Some(Unit::Megabyte)
    } else if t == "GB"@ {
        Some(Unit::Gigabyte)
    } else if t == "TB"@ {
        Some(Unit::Terabyte)
    } else if t == "KiB"@ {
        Some(Unit::Kibibyte)
    } else if t == "MiB"@ {
        Some(Unit::Mebibyte)
    } else if t == "GiB"@ {
        Some(Unit::Gibibyte)
    } else if t == "TiB"@ {
        Some(Unit::Tebibyte)
    } else if t == "kN"@ {
        Some(Unit::Kilonewton)
    } else {
        None
    }
}

fn exact_unit_of(t: &Vec<char>) -> (r: Option<Unit>)
    ensures
        r == exact_unit(t@),
{
    if equals_text(t, "B") || equals_text(t, "byte") || equals_text(t, "bytes") {
        return Some(Unit::Byte);
    }
    if equals_text(t, "b") || equals_text(t, "bit") || equals_text(t, "bits") {
        return Some(Unit::Bit);
    }
    if equals_text(t, "KB") {
        return Some(Unit::Kilobyte);
    }
    if equals_text(t, "MB") {
        return Some(Unit::Megabyte);
    }
    if equals_text(t, "GB") {
        return Some(Unit::Gigabyte);
    }
    if equals_text(t, "TB") {
        return Some(Unit::Terabyte);
    }
    if equals_text(t, "KiB") {
        return Some(Unit::Kibibyte);
    }
    if equals_text(t, "MiB") {
        return Some(Unit::Mebibyte);
    }
    if equals_text(t, "GiB") {
        return Some(Unit::Gibibyte);
    }
    if equals_text(t, "TiB") {
        return Some(Unit::Tebibyte);
    }
    if equals_text(t, "kN") {
        return Some(Unit::Kilonewton);
    }
    None
}

/// Lower-case names of months and years.
pub open spec fn is_calendar_span(l: Seq<char>) -> bool {
    l == "month"@ || l == "months"@ || l == "mo"@ || l == "year"@ || l == "years"@ || l == "yr"@
}

fn is_calendar_span_of(l: &Vec<char>) -> (r: bool)
    ensures
        r == is_calendar_span(l@),
{
    equals_text(l, "month") || equals_text(l, "months") || equals_text(l, "mo") || equals_text(l, "year") || equals_text(l, "years") || equals_text(l, "yr")
}

/// The length units by lower-case name.
pub open spec fn length_unit(l: Seq<char>) -> Option<Unit> {
    if l == "m"@ || l == "meter"@ || l == "meters"@ || l == "metre"@ || l == "metres"@ {
        Some(Unit::Meter)
    } else if l == "km"@ || l == "kilometer"@ || l == "kilometers"@ || l == "kilometre"@ || l == "kilometres"@ {
        Some(Unit::Kilometer)
    } else if l == "cm"@ || l == "centimeter"@ || l == "centimeters"@ {
        Some(Unit::Centimeter)
    } else if l == "mm"@ || l == "millimeter"@ || l == "millimeters"@ {
        Some(Unit::Millimeter)
    } else if l == "mi"@ || l == "mile"@ || l == "miles"@ {
        Some(Unit::Mile)
    } else if l == "yd"@ || l == "yard"@ || l == "yards"@ {
        Some(Unit::Yard)
    } else if l == "ft"@ || l == "foot"@ || l == "feet"@ {
        Some(Unit::Foot)
    } else if l == "in"@ || l == "inch"@ || l == "inches"@ {
        Some(Unit::Inch)
    } else if l == "nmi"@ || l == "nautical_mile"@ || l == "nauticalmile"@ {
        Some(Unit::NauticalMile)
    } else {
        None
    }
}

fn length_unit_of(l: &Vec<char>) -> (r: Option<Unit>)
    ensures
        r == length_unit(l@),
{
    if equals_text(l, "m") || equals_text(l, "meter") || equals_text(l, "meters") || equals_text(l, "metre") || equals_text(l, "metres") {
        return Some(Unit::Meter);
    }
    if equals_text(l, "km") || equals_text(l, "kilometer") || equals_text(l, "kilometers") || equals_text(l, "kilometre") || equals_text(l, "kilometres") {
        return Some(Unit::Kilometer);
    }
    if equals_text(l, "cm") || equals_text(l, "centimeter") || equals_text(l, "centimeters") {
        return Some(Unit::Centimeter);
    }
    if equals_text(l, "mm") || equals_text(l, "millimeter") || equals_text(l, "millimeters") {
        return Some(Unit::Millimeter);
    }
    if equals_text(l, "mi") || equals_text(l, "mile") || equals_text(l, "miles") {
        return Some(Unit::Mile);
    }
    if equals_text(l, "yd") || equals_text(l, "yard") || equals_text(l, "yards") {
        return Some(Unit::Yard);
    }
    if equals_text(l, "ft") || equals_text(l, "foot") || equals_text(l, "feet") {
        return Some(Unit::Foot);
    }
    if equals_text(l, "in") || equals_text(l, "inch") || equals_text(l, "inches") {
        return Some(Unit::Inch);
    }
    if equals_text(l, "nmi") || equals_text(l, "nautical_mile") || equals_text(l, "nauticalmile") {
        return Some(Unit::NauticalMile);
    }
    None
}

/// The mass units by lower-case name.
pub open spec fn mass_unit(l: Seq<char>) -> Option<Unit> {
    if l == "kg"@ || l == "kilogram"@ || l == "kilograms"@ {
        Some(Unit::Kilogram)
    } else if l == "g"@ || l == "gram"@ || l == "grams"@ {
        Some(Unit::Gram)
    } else if l == "mg"@ || l == "milligram"@ || l == "milligrams"@ {
        Some(Unit::Milligram)
    } else if l == "t"@ || l == "tonne"@ || l == "tonnes"@ {
        Some(Unit::Tonne)
    } else if l == "lb"@ || l == "lbs"@ || l == "pound"@ || l == "pounds"@ {
        Some(Unit::Pound)
    } else if l == "oz"@ || l == "ounce"@ || l == "ounces"@ {
        Some(Unit::Ounce)
    } else if l == "st"@ || l == "stone"@ {
        Some(Unit::Stone)
    } else {
        None
    }
}

fn mass_unit_of(l: &Vec<char>) -> (r: Option<Unit>)
    ensures
        r == mass_unit(l@),
{
    if equals_text(l, "kg") || equals_text(l, "kilogram") || equals_text(l, "kilograms") {
        return Some(Unit::Kilogram);
    }
    if equals_text(l, "g") || equals_text(l, "gram") || equals_text(l, "grams") {
        return Some(Unit::Gram);
    }
    if equals_text(l, "mg") || equals_text(l, "milligram") || equals_text(l, "milligrams") {
        return Some(Unit::Milligram);
    }
    if equals_text(l, "t") || equals_text(l, "tonne") || equals_text(l, "tonnes") {
        return Some(Unit::Tonne);
    }
    if equals_text(l, "lb") || equals_text(l, "lbs") || equals_text(l, "pound") || equals_text(l, "pounds") {
        return Some(Unit::Pound);
    }
    if equals_text(l, "oz") || equals_text(l, "ounce") || equals_text(l, "ounces") {
        return Some(Unit::Ounce);
    }
    if equals_text(l, "st") || equals_text(l, "stone") {
        return Some(Unit::Stone);
    }
    None
}

/// The temperature units by lower-case name.
pub open spec fn temperature_unit(l: Seq<char>) -> Option<Unit> {
    if l == "c"@ || l == "celsius"@ {
        Some(Unit::Celsius)
    } else if l == "f"@ || l == "fahrenheit"@ {
        Some(Unit::Fahrenheit)
    } else if l == "k"@ || l == "kelvin"@ {
        Some(Unit::Kelvin)
    } else {
        None
    }
}

fn temperature_unit_of(l: &Vec<char>) -> (r: Option<Unit>)
    ensures
        r == temperature_unit(l@),
{
    if equals_text(l, "c") || equals_text(l, "celsius") {
        return Some(Unit::Celsius);
    }
    if equals_text(l, "f") || equals_text(l, "fahrenheit") {
        return Some(Unit::Fahrenheit);
    }
    if equals_text(l, "k") || equals_text(l, "kelvin") {
        return Some(Unit::Kelvin);
    }
    None
}

/// The volume units by lower-case name.
pub open spec fn volume_unit(l: Seq<char>) -> Option<Unit> {
    if l == "l"@ || l == "liter"@ || l == "liters"@ || l == "litre"@ || l == "litres"@ {
        Some(Unit::Liter)
    } else if l == "ml"@ || l == "milliliter"@ || l == "milliliters"@ {
        Some(Unit::Milliliter)
    } else if l == "m3"@ || l == "m^3"@ || l == "m³"@ || l == "cubic_meter"@ || l == "cubic_meters"@ {
        Some(Unit::CubicMeter)
    } else if l == "gal"@ || l == "gallon"@ || l == "gallons"@ {
        Some(Unit::Gallon)
    } else if l == "qt"@ || l == "quart"@ || l == "quarts"@ {
        Some(Unit::Quart)
    } else if l == "pt"@ || l == "pint"@ || l == "pints"@ {
        Some(Unit::Pint)
    } else if l == "cup"@ || l == "cups"@ {
        Some(Unit::Cup)
    } else if l == "floz"@ || l == "fl_oz"@ || l == "fluid_ounce"@ || l == "fluid_ounces"@ {
        Some(Unit::FluidOunce)
    } else {
        None
    }
}

fn volume_unit_of(l: &Vec<char>) -> (r: Option<Unit>)
    ensures
        r == volume_unit(l@),
{
    if equals_text(l, "l") || equals_text(l, "liter") || equals_text(l, "liters") || equals_text(l, "litre") || equals_text(l, "litres") {
        return Some(Unit::Liter);
    }
    if equals_text(l, "ml") || equals_text(l, "milliliter") || equals_text(l, "milliliters") {
        return Some(Unit::Milliliter);
    }
    if equals_text(l, "m3") || equals_text(l, "m^3") || equals_text(l, "m³") || equals_text(l, "cubic_meter") || equals_text(l, "cubic_meters") {
        return Some(Unit::CubicMeter);
    }
    if equals_text(l, "gal") || equals_text(l, "gallon") || equals_text(l, "gallons") {
        return Some(Unit::Gallon);
    }
    if equals_text(l, "qt") || equals_text(l, "quart") || equals_text(l, "quarts") {
        return Some(Unit::Quart);
    }
    if equals_text(l, "pt") || equals_text(l, "pint") || equals_text(l, "pints") {
        return Some(Unit::Pint);
    }
    if equals_text(l, "cup") || equals_text(l, "cups") {
        return Some(Unit::Cup);
    }
    if equals_text(l, "floz") || equals_text(l, "fl_oz") || equals_text(l, "fluid_ounce") || equals_text(l, "fluid_ounces") {
        return Some(Unit::FluidOunce);
    }
    None
}

/// The speed units by lower-case name.
pub open spec fn speed_unit(l: Seq<char>) -> Option<Unit> {
    if l == "m/s"@ || l == "mps"@ {
        Some(Unit::MeterPerSecond)
    } else if l == "km/h"@ || l == "kph"@ {
        Some(Unit::KilometerPerHour)
    } else if l == "mph"@ {
        Some(Unit::MilePerHour)
    } else if l == "kn"@ || l == "knot"@ || l == "knots"@ {
        Some(Unit::Knot)
    } else {
        None
    }
}

fn speed_unit_of(l: &Vec<char>) -> (r: Option<Unit>)
    ensures
        r == speed_unit(l@),
{
    if equals_text(l, "m/s") || equals_text(l, "mps") {
        return Some(Unit::MeterPerSecond);
    }
    if equals_text(l, "km/h") || equals_text(l, "kph") {
        return Some(Unit::KilometerPerHour);
    }
    if equals_text(l, "mph") {
        return Some(Unit::MilePerHour);
    }
    if equals_text(l, "kn") || equals_text(l, "knot") || equals_text(l, "knots") {
        return Some(Unit::Knot);
    }
    None
}

/// The area units by lower-case name.
pub open spec fn area_unit(l: Seq<char>) -> Option<Unit> {
    if l == "m2"@ || l == "m^2"@ || l == "m²"@ || l == "sq_m"@ || l == "square_meter"@ {
        Some(Unit::SquareMeter)
    } else if l == "km2"@ || l == "km^2"@ || l == "km²"@ || l == "sq_km"@ {
        Some(Unit::SquareKilometer)
    } else if l == "ha"@ || l == "hectare"@ || l == "hectares"@ {
        Some(Unit::Hectare)
    } else if l == "acre"@ || l == "acres"@ {
        Some(Unit::Acre)
    } else if l == "ft2"@ || l == "ft^2"@ || l == "ft²"@ || l == "sq_ft"@ {
        Some(Unit::SquareFoot)
    } else {
        None
    }
}

fn area_unit_of(l: &Vec<char>) -> (r: Option<Unit>)
    ensures
        r == area_unit(l@),
{
    if equals_text(l, "m2") || equals_text(l, "m^2") || equals_text(l, "m²") || equals_text(l, "sq_m") || equals_text(l, "square_meter") {
        return Some(Unit::SquareMeter);
    }
    if equals_text(l, "km2") || equals_text(l, "km^2") || equals_text(l, "km²") || equals_text(l, "sq_km") {
        return Some(Unit::SquareKilometer);
    }
    if equals_text(l, "ha") || equals_text(l, "hectare") || equals_text(l, "hectares") {
        return Some(Unit::Hectare);
    }
    if equals_text(l, "acre") || equals_text(l, "acres") {
        return Some(Unit::Acre);
    }
    if equals_text(l, "ft2") || equals_text(l, "ft^2") || equals_text(l, "ft²") || equals_text(l, "sq_ft") {
        return Some(Unit::SquareFoot);
    }
    None
}

/// The duration units by lower-case name.
pub open spec fn duration_unit(l: Seq<char>) -> Option<Unit> {
    if l == "ms"@ || l == "millisecond"@ || l == "milliseconds"@ {
        Some(Unit::Millisecond)
    } else if l == "s"@ || l == "sec"@ || l == "second"@ || l == "seconds"@ {
        Some(Unit::Second)
    } else if l == "min"@ || l == "minute"@ || l == "minutes"@ {
        Some(Unit::Minute)
    } else if l == "h"@ || l == "hr"@ || l == "hour"@ || l == "hours"@ {
        Some(Unit::Hour)
    } else if l == "d"@ || l == "day"@ || l == "days"@ {
        Some(Unit::Day)
    } else if l == "wk"@ || l == "week"@ || l == "weeks"@ {
        Some(Unit::Week)
    } else {
        None
    }
}

fn duration_unit_of(l: &Vec<char>) -> (r: Option<Unit>)
    ensures
        r == duration_unit(l@),
{
    if equals_text(l, "ms") || equals_text(l, "millisecond") || equals_text(l, "milliseconds") {
        return Some(Unit::Millisecond);
    }
    if equals_text(l, "s") || equals_text(l, "sec") || equals_text(l, "second") || equals_text(l, "seconds") {
        return Some(Unit::Second);
    }
    if equals_text(l, "min") || equals_text(l, "minute") || equals_text(l, "minutes") {
        return Some(Unit::Minute);
    }
    if equals_text(l, "h") || equals_text(l, "hr") || equals_text(l, "hour") || equals_text(l, "hours") {
        return Some(Unit::Hour);
    }
    if equals_text(l, "d") || equals_text(l, "day") || equals_text(l, "days") {
        return Some(Unit::Day);
    }
    if equals_text(l, "wk") || equals_text(l, "week") || equals_text(l, "weeks") {
        return Some(Unit::Week);
    }
    None
}

/// The pressure units by lower-case name.
pub open spec fn pressure_unit(l: Seq<char>) -> Option<Unit> {
    if l == "pa"@ || l == "pascal"@ || l == "pascals"@ {
        Some(Unit::Pascal)
    } else if l == "kpa"@ {
        Some(Unit::Kilopascal)
    } else if l == "bar"@ || l == "bars"@ {
        Some(Unit::Bar)
    } else if l == "atm"@ || l == "atmosphere"@ || l == "atmospheres"@ {
        Some(Unit::Atmosphere)
    } else if l == "psi"@ {
        Some(Unit::Psi)
    } else if l == "mmhg"@ || l == "mm_hg"@ {
        Some(Unit::MillimeterOfMercury)
    } else {
        None
    }
}

fn pressure_unit_of(l: &Vec<char>) -> (r: Option<Unit>)
    ensures
        r == pressure_unit(l@),
{
    if equals_text(l, "pa") || equals_text(l, "pascal") || equals_text(l, "pascals") {
        return Some(Unit::Pascal);
    }
    if equals_text(l, "kpa") {
        return Some(Unit::Kilopascal);
    }
    if equals_text(l, "bar") || equals_text(l, "bars") {
        return Some(Unit::Bar);
    }
    if equals_text(l, "atm") || equals_text(l, "atmosphere") || equals_text(l, "atmospheres") {
        return Some(Unit::Atmosphere);
    }
    if equals_text(l, "psi") {
        return Some(Unit::Psi);
    }
    if equals_text(l, "mmhg") || equals_text(l, "mm_hg") {
        return Some(Unit::MillimeterOfMercury);
    }
    None
}

/// The energy units by lower-case name.
pub open spec fn energy_unit(l: Seq<char>) -> Option<Unit> {
    if l == "j"@ || l == "joule"@ || l == "joules"@ {
        Some(Unit::Joule)
    } else if l == "kj"@ {
        Some(Unit::Kilojoule)
    } else if l == "cal"@ || l == "calorie"@ || l == "calories"@ {
        Some(Unit::Calorie)
    } else if l == "kcal"@ || l == "kilocalorie"@ || l == "kilocalories"@ {
        Some(Unit::Kilocalorie)
    } else if l == "wh"@ || l == "watt_hour"@ || l == "watt_hours"@ {
        Some(Unit::WattHour)
    } else if l == "kwh"@ || l == "kilowatt_hour"@ || l == "kilowatt_hours"@ {
        Some(Unit::KilowattHour)
    } else if l == "btu"@ || l == "btus"@ {
        Some(Unit::Btu)
    } else {
        None
    }
}

fn energy_unit_of(l: &Vec<char>) -> (r: Option<Unit>)
    ensures
        r == energy_unit(l@),
{
    if equals_text(l, "j") || equals_text(l, "joule") || equals_text(l, "joules") {
        return Some(Unit::Joule);
    }
    if equals_text(l, "kj") {
        return Some(Unit::Kilojoule);
    }
    if equals_text(l, "cal") || equals_text(l, "calorie") || equals_text(l, "calories") {
        return Some(Unit::Calorie);
    }
    if equals_text(l, "kcal") || equals_text(l, "kilocalorie") || equals_text(l, "kilocalories") {
        return Some(Unit::Kilocalorie);
    }
    if equals_text(l, "wh") || equals_text(l, "watt_hour") || equals_text(l, "watt_hours") {
        return Some(Unit::WattHour);
    }
    if equals_text(l, "kwh") || equals_text(l, "kilowatt_hour") || equals_text(l, "kilowatt_hours") {
        return Some(Unit::KilowattHour);
    }
    if equals_text(l, "btu") || equals_text(l, "btus") {
        return Some(Unit::Btu);
    }
    None
}

/// The power units by lower-case name.
pub open spec fn power_unit(l: Seq<char>) -> Option<Unit> {
    if l == "w"@ || l == "watt"@ || l == "watts"@ {
        Some(Unit::Watt)
    } else if l == "kw"@ || l == "kilowatt"@ || l == "kilowatts"@ {
        Some(Unit::Kilowatt)
    } else if l == "mw"@ || l == "megawatt"@ || l == "megawatts"@ {
        Some(Unit::Megawatt)
    } else if l == "hp"@ || l == "horsepower"@ {
        Some(Unit::Horsepower)
    } else {
        None
    }
}

fn power_unit_of(l: &Vec<char>) -> (r: Option<Unit>)
    ensures
        r == power_unit(l@),
{
    if equals_text(l, "w") || equals_text(l, "watt") || equals_text(l, "watts") {
        return Some(Unit::Watt);
    }
    if equals_text(l, "kw") || equals_text(l, "kilowatt") || equals_text(l, "kilowatts") {
        return Some(Unit::Kilowatt);
    }
    if equals_text(l, "mw") || equals_text(l, "megawatt") || equals_text(l, "megawatts") {
        return Some(Unit::Megawatt);
    }
    if equals_text(l, "hp") || equals_text(l, "horsepower") {
        return Some(Unit::Horsepower);
    }
    None
}

/// The force units by lower-case name.
pub open spec fn force_unit(l: Seq<char>) -> Option<Unit> {
    if l == "n"@ || l == "newton"@ || l == "newtons"@ {
        Some(Unit::Newton)
    } else if l == "kilonewton"@ || l == "kilonewtons"@ {
        Some(Unit::Kilonewton)
    } else if l == "lbf"@ || l == "pound_force"@ {
        Some(Unit::PoundForce)
    } else {
        None
    }
}

fn force_unit_of(l: &Vec<char>) -> (r: Option<Unit>)
    ensures
        r == force_unit(l@),
{
    if equals_text(l, "n") || equals_text(l, "newton") || equals_text(l, "newtons") {
        return Some(Unit::Newton);
    }
    if equals_text(l, "kilonewton") || equals_text(l, "kilonewtons") {
        return Some(Unit::Kilonewton);
    }
    if equals_text(l, "lbf") || equals_text(l, "pound_force") {
        return Some(Unit::PoundForce);
    }
    None
}

/// The angle units by lower-case name.
pub open spec fn angle_unit(l: Seq<char>) -> Option<Unit> {
    if l == "rad"@ || l == "radian"@ || l == "radians"@ {
        Some(Unit::Radian)
    } else if l == "deg"@ || l == "degree"@ || l == "degrees"@ {
        Some(Unit::Degree)
    } else if l == "grad"@ || l == "gradian"@ || l == "gradians"@ || l == "gon"@ || l == "gons"@ {
        Some(Unit::Gradian)
    } else {
        None
    }
}

fn angle_unit_of(l: &Vec<char>) -> (r: Option<Unit>)
    ensures
        r == angle_unit(l@),
{
    if equals_text(l, "rad") || equals_text(l, "radian") || equals_text(l, "radians") {
        return Some(Unit::Radian);
    }
    if equals_text(l, "deg") || equals_text(l, "degree") || equals_text(l, "degrees") {
        return Some(Unit::Degree);
    }
    if equals_text(l, "grad") || equals_text(l, "gradian") || equals_text(l, "gradians") || equals_text(l, "gon") || equals_text(l, "gons") {
        return Some(Unit::Gradian);
    }
    None
}

/// The units matched without regard to case, by lower-case name.
pub open spec fn folded_unit(l: Seq<char>) -> Option<Unit> {
    if length_unit(l) is Some {
        length_unit(l)
    } else if mass_unit(l) is Some {
        mass_unit(l)
    } else if temperature_unit(l) is Some {
        temperature_unit(l)
    } else if volume_unit(l) is Some {
        volume_unit(l)
    } else if speed_unit(l) is Some {
        speed_unit(l)
    } else if area_unit(l) is Some {
        area_unit(l)
    } else if duration_unit(l) is Some {
        duration_unit(l)
    } else if pressure_unit(l) is Some {
        pressure_unit(l)
    } else if energy_unit(l) is Some {
        energy_unit(l)
    } else if power_unit(l) is Some {
        power_unit(l)
    } else if force_unit(l) is Some {
        force_unit(l)
    } else if angle_unit(l) is Some {
        angle_unit(l)
    } else {
        None
    }
}

fn folded_unit_of(l: &Vec<char>) -> (r: Option<Unit>)
    ensures
        r == folded_unit(l@),
{
    if let Some(u) = length_unit_of(l) {
        return Some(u);
    }
    if let Some(u) = mass_unit_of(l) {
        return Some(u);
    }
    if let Some(u) = temperature_unit_of(l) {
        return Some(u);
    }
    if let Some(u) = volume_unit_of(l) {
        return Some(u);
    }
    if let Some(u) = speed_unit_of(l) {
        return Some(u);
    }
    if let Some(u) = area_unit_of(l) {
        return Some(u);
    }
    if let Some(u) = duration_unit_of(l) {
        return Some(u);
    }
    if let Some(u) = pressure_unit_of(l) {
        return Some(u);
    }
    if let Some(u) = energy_unit_of(l) {
        return Some(u);
    }
    if let Some(u) = power_unit_of(l) {
        return Some(u);
    }
    if let Some(u) = force_unit_of(l) {
        return Some(u);
    }
    if let Some(u) = angle_unit_of(l) {
        return Some(u);
    }
    None
}

/// What `str::to_lowercase` gives for `s` (Unicode's lower-case mapping).
pub uninterp spec fn std_lowercase(s: Seq<char>) -> Seq<char>;

/// Calls `str::to_lowercase`. Claims only that the result is a function of
/// the text (named `std_lowercase`).
#[verifier::external_body]
fn lowercase(s: &str) -> (r: String)
    ensures
        r@ == std_lowercase(s@),
{
    s.to_lowercase()
}

pub open spec fn calendar_span_message() -> Seq<char> {
    "Months and years are not fixed durations. Use date_add or date_diff instead."@
}

pub open spec fn unknown_unit_message(s: Seq<char>) -> Seq<char> {
    "Unknown unit: '"@ + s + "'. Supported units: m, km, cm, mm, mi, yd, ft, in, nmi, kg, g, mg, t, lb, oz, st, C, F, K, l, ml, m3, gal, qt, pt, cup, floz, m/s, km/h, mph, kn, m2, km2, ha, acre, ft2, ms, s, min, h, d, wk, B, KB, MB, GB, TB, KiB, MiB, GiB, TiB, bit, Pa, kPa, bar, atm, psi, mmHg, J, kJ, cal, kcal, Wh, kWh, BTU, W, kW, MW, hp, N, kN, lbf, deg, rad, grad"@
}

/// The unit a name stands for, after trimming white space: first the names
/// matched with their case, then (refusing months and years) the others by
/// their lower-case form.
pub open spec fn unit_lookup(s: Seq<char>) -> Result<Unit, Seq<char>> {
    let t = trimmed(s);
    match exact_unit(t) {
        Some(u) => Ok(u),
        None => folded_lookup(std_lowercase(t), s),
    }
}

/// The unit that the lower-case name `l` stands for, refusing months and
/// years; `s` is the name as given, for the message of an unknown one.
pub open spec fn folded_lookup(l: Seq<char>, s: Seq<char>) -> Result<Unit, Seq<char>> {
    if is_calendar_span(l) {
        Err(calendar_span_message())
    } else {
        match folded_unit(l) {
            Some(u) => Ok(u),
            None => Err(unknown_unit_message(s)),
        }
    }
}

pub open spec fn unit_result_view(r: Result<Unit, String>) -> Result<Unit, Seq<char>> {
    match r {
        Ok(u) => Ok(u),
        Err(e) => Err(e@),
    }
}

/// `a`, then `s`, then `b`, as a `String`.
fn framed(a: &str, s: &Vec<char>, b: &str) -> (r: String)
    ensures
        r@ == a@ + s@ + b@,
{
    let mut v = chars_of(a);
    append_chars(&mut v, s);
    let w = chars_of(b);
    append_chars(&mut v, &w);
    string_from_chars(&v)
}

/// The unit a name stands for.
pub fn lookup_unit(unit: &str) -> (r: Result<Unit, String>)
    ensures
        unit_result_view(r) == unit_lookup(unit@),
{
    let raw = chars_of(unit);
    let t = trim_chars(&raw);
    if let Some(u) = exact_unit_of(&t) {
        return Ok(u);
    }
    let ts = string_from_chars(&t);
    let lower = lowercase(ts.as_str());
    unit_from_lowercase(lower.as_str(), unit)
}

/// The unit that the lower-case name `lower` stands for, refusing months and
/// years; `unit` is the name as given, for the message of an unknown one.
pub fn unit_from_lowercase(lower: &str, unit: &str) -> (r: Result<Unit, String>)
    ensures
        unit_result_view(r) == folded_lookup(lower@, unit@),
{
    let l = chars_of(lower);
    if is_calendar_span_of(&l) {
        return Err(
            "Months and years are not fixed durations. Use date_add or date_diff instead.".to_owned(),
        );
    }
    match folded_unit_of(&l) {
        Some(u) => Ok(u),
        None => Err(framed("Unknown unit: '", &chars_of(unit), "'. Supported units: m, km, cm, mm, mi, yd, ft, in, nmi, kg, g, mg, t, lb, oz, st, C, F, K, l, ml, m3, gal, qt, pt, cup, floz, m/s, km/h, mph, kn, m2, km2, ha, acre, ft2, ms, s, min, h, d, wk, B, KB, MB, GB, TB, KiB, MiB, GiB, TiB, bit, Pa, kPa, bar, atm, psi, mmHg, J, kJ, cal, kcal, Wh, kWh, BTU, W, kW, MW, hp, N, kN, lbf, deg, rad, grad")),
    }
}

// ===== Checks before converting or combining quantities =====

pub open spec fn cross_quantity_message(
    from: Seq<char>,
    fq: QuantityKind,
    to: Seq<char>,
    tq: QuantityKind,
) -> Seq<char> {
    "Cannot convert from "@ + from + " ("@ + quantity_name(fq) + ") to "@ + to + " ("@
        + quantity_name(tq) + ") \u{2014} different quantities"@
}

/// Which units a conversion goes between: both names must stand for units of
/// the same quantity.
pub open spec fn conversion_units(from: Seq<char>, to: Seq<char>) -> Result<(Unit, Unit), Seq<char>> {
    match unit_lookup(from) {
        Err(e) => Err(e),
        Ok(f) => match unit_lookup(to) {
            Err(e) => Err(e),
            Ok(t) => if quantity_of(f) != quantity_of(t) {
                Err(cross_quantity_message(from, quantity_of(f), to, quantity_of(t)))
            } else {
                Ok((f, t))
            },
        },
    }
}

fn push_str(v: &mut Vec<char>, s: &str)
    ensures
        final(v)@ == old(v)@ + s@,
{
    let w = chars_of(s);
    append_chars(v, &w);
}

/// The units of a conversion from `from_unit` to `to_unit`, or why there is none.
pub fn conversion_plan(from_unit: &str, to_unit: &str) -> (r: Result<(Unit, Unit), String>)
    ensures
        match r {
            Ok(p) => conversion_units(from_unit@, to_unit@) == Ok::<(Unit, Unit), Seq<char>>(p),
            Err(e) => conversion_units(from_unit@, to_unit@) == Err::<(Unit, Unit), Seq<char>>(e@),
        },
{
    let f = match lookup_unit(from_unit) {
        Ok(u) => u,
        Err(e) => {
            return Err(e);
        },
    };
    let t = match lookup_unit(to_unit) {
        Ok(u) => u,
        Err(e) => {
            return Err(e);
        },
    };
    let fq = unit_quantity(f);
    let tq = unit_quantity(t);
    if fq != tq {
        let mut v: Vec<char> = Vec::new();
        push_str(&mut v, "Cannot convert from ");
        push_str(&mut v, from_unit);
        push_str(&mut v, " (");
        push_str(&mut v, fq.name());
        push_str(&mut v, ") to ");
        push_str(&mut v, to_unit);
        push_str(&mut v, " (");
        push_str(&mut v, tq.name());
        push_str(&mut v, ") \u{2014} different quantities");
        assert(v@ =~= cross_quantity_message(from_unit@, fq, to_unit@, tq));
        return Err(string_from_chars(&v));
    }
    Ok((f, t))
}

/// Adding or subtracting quantities.
#[derive(PartialEq, Eq, Structural, Clone, Copy, Debug)]
pub enum QuantityOp {
    Add,
    Subtract,
}

/// What combining two quantities goes through: the units of both operands,
/// the operation, and the unit of the result with the name it is reported by.
#[derive(Debug)]
pub struct ArithmeticPlan {
    pub left: Unit,
    pub right: Unit,
    pub op: QuantityOp,
    pub result: Unit,
    pub result_name: String,
}

pub open spec fn mixed_quantity_message(
    op: Seq<char>,
    left: Seq<char>,
    right: Seq<char>,
    lq: QuantityKind,
) -> Seq<char> {
    "Cannot "@ + op + " "@ + left + " and "@ + right + " \u{2014} different quantities ("@
        + quantity_name(lq) + ")"@
}

pub open spec fn temperature_arithmetic_message() -> Seq<char> {
    "Quantity arithmetic is not supported for temperature (ambiguous delta-vs-absolute semantics). Use convert_unit for temperature conversion instead."@
}

pub open spec fn unknown_operation_message(op: Seq<char>) -> Seq<char> {
    "Unknown operation: "@ + op + " (expected 'add' or 'subtract')"@
}

pub open spec fn result_unit_message(u: Seq<char>, q: QuantityKind, lq: QuantityKind) -> Seq<char> {
    "Result unit "@ + u + " ("@ + quantity_name(q) + ") does not match operand quantity ("@
        + quantity_name(lq) + ")"@
}

/// The checks of combining two quantities, in order: both units known, of
/// one quantity, not temperature, a known operation, and a result unit (the
/// left one unless named) of that quantity.
pub open spec fn arithmetic_plan_ok(
    left: Seq<char>,
    right: Seq<char>,
    op: Seq<char>,
    result_unit: Option<Seq<char>>,
    r: Result<ArithmeticPlan, String>,
) -> bool {
    match unit_lookup(left) {
        Err(e) => r matches Err(x) && x@ == e,
        Ok(lu) => match unit_lookup(right) {
            Err(e) => r matches Err(x) && x@ == e,
            Ok(ru) => if quantity_of(lu) != quantity_of(ru) {
                r matches Err(x) && x@ == mixed_quantity_message(op, left, right, quantity_of(lu))
            } else if quantity_of(lu) == QuantityKind::Temperature {
                r matches Err(x) && x@ == temperature_arithmetic_message()
            } else if op != "add"@ && op != "subtract"@ {
                r matches Err(x) && x@ == unknown_operation_message(op)
            } else {
                let o = if op == "add"@ {
                    QuantityOp::Add
                } else {
                    QuantityOp::Subtract
                };
                match result_unit {
                    None => r matches Ok(p) && p.left == lu && p.right == ru && p.op == o
                        && p.result == lu && p.result_name@ == left,
                    Some(name) => match unit_lookup(name) {
                        Err(e) => r matches Err(x) && x@ == e,
                        Ok(u) => if quantity_of(u) != quantity_of(lu) {
                            r matches Err(x) && x@ == result_unit_message(
                                name,
                                quantity_of(u),
                                quantity_of(lu),
                            )
                        } else {
                            r matches Ok(p) && p.left == lu && p.right == ru && p.op == o
                                && p.result == u && p.result_name@ == name
                        },
                    },
                }
            },
        },
    }
}

/// Checks a request to add or subtract two quantities and settles its units.
pub fn arithmetic_plan(left_unit: &str, right_unit: &str, operation: &str, result_unit: Option<
    &str,
>) -> (r: Result<ArithmeticPlan, String>)
    ensures
        arithmetic_plan_ok(
            left_unit@,
            right_unit@,
            operation@,
            match result_unit {
                Some(u) => Some(u@),
                None => None,
            },
            r,
        ),
{
    let lu = match lookup_unit(left_unit) {
        Ok(u) => u,
        Err(e) => {
            return Err(e);
        },
    };
    let ru = match lookup_unit(right_unit) {
        Ok(u) => u,
        Err(e) => {
            return Err(e);
        },
    };
    let lq = unit_quantity(lu);
    if lq != unit_quantity(ru) {
        let mut v: Vec<char> = Vec::new();
        push_str(&mut v, "Cannot ");
        push_str(&mut v, operation);
        push_str(&mut v, " ");
        push_str(&mut v, left_unit);
        push_str(&mut v, " and ");
        push_str(&mut v, right_unit);
        push_str(&mut v, " \u{2014} different quantities (");
        push_str(&mut v, lq.name());
        push_str(&mut v, ")");
        assert(v@ =~= mixed_quantity_message(operation@, left_unit@, right_unit@, lq));
        return Err(string_from_chars(&v));
    }
    if lq == QuantityKind::Temperature {
        return Err(
            "Quantity arithmetic is not supported for temperature (ambiguous delta-vs-absolute semantics). Use convert_unit for temperature conversion instead.".to_owned(),
        );
    }
    let op_chars = chars_of(operation);
    let op = if equals_text(&op_chars, "add") {
        QuantityOp::Add
    } else if equals_text(&op_chars, "subtract") {
        QuantityOp::Subtract
    } else {
        return Err(framed("Unknown operation: ", &op_chars, " (expected 'add' or 'subtract')"));
    };
    match result_unit {
        None => Ok(
            ArithmeticPlan { left: lu, right: ru, op, result: lu, result_name: left_unit.to_owned() },
        ),
        Some(name) => {
            let u = match lookup_unit(name) {
                Ok(u) => u,
                Err(e) => {
                    return Err(e);
                },
            };
            let q = unit_quantity(u);
            if q != lq {
                let mut v: Vec<char> = Vec::new();
                push_str(&mut v, "Result unit ");
                push_str(&mut v, name);
                push_str(&mut v, " (");
                push_str(&mut v, q.name());
                push_str(&mut v, ") does not match operand quantity (");
                push_str(&mut v, lq.name());
                push_str(&mut v, ")");
                assert(v@ =~= result_unit_message(name@, q, lq));
                return Err(string_from_chars(&v));
            }
            Ok(ArithmeticPlan { left: lu, right: ru, op, result: u, result_name: name.to_owned() })
        },
    }
}

} // verus!
