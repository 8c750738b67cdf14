use vstd::prelude::*;
use crate::text::{push_str, string_of};

verus! {

/// The order in which pictures are shown.
#[derive(Clone, Copy, PartialEq, Eq, Structural, Debug)]
pub enum Order {
    Colors,
    Date,
    Name,
    Random,
    Size,
    Value,
    Palette,
    Label,
}

/// The order that command line options choose: the first option set wins, in the order
/// name, date, size, colors, value, palette, label; with none, random.
pub open spec fn order_of_options(
    name: bool,
    date: bool,
    size: bool,
    colors: bool,
    value: bool,
    palette: bool,
    label: bool,
) -> Order {
    if name {
        Order::Name
    } else if date {
        Order::Date
    } else if size {
        Order::Size
    } else if colors {
        Order::Colors
    } else if value {
        Order::Value
    } else if palette {
        Order::Palette
    } else if label {
        Order::Label
    } else {
        Order::Random
    }
}

/// Each order flag chooses the order of its name, the first set winning in the order name,
/// date, size, colors, value, palette, label; with none set, the order is random.
pub proof fn lemma_flags_choose_orders(
    name: bool,
    date: bool,
    size: bool,
    colors: bool,
    value: bool,
    palette: bool,
    label: bool,
)
    ensures
        ({
            let o = order_of_options(name, date, size, colors, value, palette, label);
            &&& name ==> o == Order::Name
            &&& !name && date ==> o == Order::Date
            &&& !name && !date && size ==> o == Order::Size
            &&& !name && !date && !size && colors ==> o == Order::Colors
            &&& !name && !date && !size && !colors && value ==> o == Order::Value
            &&& !name && !date && !size && !colors && !value && palette ==> o == Order::Palette
            &&& !name && !date && !size && !colors && !value && !palette && label ==> o
                == Order::Label
            &&& !name && !date && !size && !colors && !value && !palette && !label ==> o
                == Order::Random
        }),
{
}

/// The name of an order as it is displayed.
pub open spec fn order_name(o: Order) -> Seq<char> {
    match o {
        Order::Colors => "Colors"@,
        Order::Date => "Date"@,
        Order::Name => "Name"@,
        Order::Random => "Random"@,
        Order::Size => "Size"@,
        Order::Value => "Value"@,
        Order::Palette => "Palette"@,
        Order::Label => "Label"@,
    }
}

impl Order {
    pub fn from_options(
        name: bool,
        date: bool,
        size: bool,
        colors: bool,
        value: bool,
        palette: bool,
        label: bool,
    ) -> (o: Self)
        ensures
            o == order_of_options(name, date, size, colors, value, palette, label),
            name ==> o == Order::Name,
            !name && date ==> o == Order::Date,
            !name && !date && size ==> o == Order::Size,
            !name && !date && !size && colors ==> o == Order::Colors,
            !name && !date && !size && !colors && value ==> o == Order::Value,
            !name && !date && !size && !colors && !value && palette ==> o == Order::Palette,
            !name && !date && !size && !colors && !value && !palette && label ==> o
                == Order::Label,
            !name && !date && !size && !colors && !value && !palette && !label ==> o
                == Order::Random,
    {
        if name {
            Self::Name
        } else if date {
            Self::Date
        } else if size {
            Self::Size
        } else if colors {
            Self::Colors
        } else if value {
            Self::Value
        } else if palette {
            Self::Palette
        } else if label {
            Self::Label
        } else {
            Self::Random
        }
    }

    /// The name of the order as it is displayed.
    pub fn to_string(&self) -> (s: String)
        ensures
            s@ == order_name(*self),
    {
        let mut v: Vec<char> = Vec::new();
        match self {
            Order::Colors => push_str(&mut v, "Colors"),
            Order::Date => push_str(&mut v, "Date"),
            Order::Name => push_str(&mut v, "Name"),
            Order::Random => push_str(&mut v, "Random"),
            Order::Size => push_str(&mut v, "Size"),
            Order::Value => push_str(&mut v, "Value"),
            Order::Palette => push_str(&mut v, "Palette"),
            Order::Label => push_str(&mut v, "Label"),
        }
        string_of(v.as_slice())
    }
}

}
