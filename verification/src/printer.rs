//! Where text goes, and the colours it is written in.

use vstd::prelude::*;
use vstd::string::StringExecFns;

verus! {

/// The name under which the first snapshot is shown.
pub const SNP1: &'static str = "Snap 1";

/// The name under which the second snapshot is shown.
pub const SNP2: &'static str = "Snap 2";

/// The control sequences that switch a terminal's colours and weights.
#[derive(Debug, Copy, Clone)]
pub struct Colours {
    pub blank: &'static str,
    pub reset: &'static str,
    pub bold: &'static str,
    pub light: &'static str,
    pub gray: &'static str,
    pub dark: &'static str,
    pub blue: &'static str,
    pub green: &'static str,
    pub red: &'static str,
    pub yellow: &'static str,
    pub brown: &'static str,
}

/// The sequences of a terminal with 256 colours.
pub open spec fn with_colours() -> Colours {
    Colours {
        blank: "",
        reset: "\x1b[0m",
        bold: "\x1b[1m",
        light: "\x1b[38;5;253m",
        gray: "\x1b[38;5;246m",
        dark: "\x1b[38;5;237m",
        blue: "\x1b[38;5;039m",
        green: "\x1b[38;5;082m",
        red: "\x1b[38;5;202m",
        yellow: "\x1b[38;5;220m",
        brown: "\x1b[38;5;094m",
    }
}

/// No sequences at all: plain text.
pub open spec fn no_colours() -> Colours {
    Colours {
        blank: "",
        reset: "",
        bold: "",
        light: "",
        gray: "",
        dark: "",
        blue: "",
        green: "",
        red: "",
        yellow: "",
        brown: "",
    }
}

impl Colours {
    /// The sequences of a terminal with 256 colours.
    pub fn coloured() -> (r: Colours)
        ensures
            r == with_colours(),
    {
        Colours {
            blank: "",
            reset: "\x1b[0m",
            bold: "\x1b[1m",
            light: "\x1b[38;5;253m",
            gray: "\x1b[38;5;246m",
            dark: "\x1b[38;5;237m",
            blue: "\x1b[38;5;039m",
            green: "\x1b[38;5;082m",
            red: "\x1b[38;5;202m",
            yellow: "\x1b[38;5;220m",
            brown: "\x1b[38;5;094m",
        }
    }

    /// No sequences at all.
    pub fn plain() -> (r: Colours)
        ensures
            r == no_colours(),
    {
        Colours {
            blank: "",
            reset: "",
            bold: "",
            light: "",
            gray: "",
            dark: "",
            blue: "",
            green: "",
            red: "",
            yellow: "",
            brown: "",
        }
    }
}

/// Something that text can be printed to, with the colours to print in.
pub trait Printer {
    /// All the text printed so far that is still there.
    spec fn printed(&self) -> Seq<char>;

    /// The colours of this printer.
    spec fn palette(&self) -> Colours;

    /// Prints a text behind what is there.
    fn print(&mut self, text: String)
        ensures
            final(self).printed() == old(self).printed() + text@,
            final(self).palette() == old(self).palette(),
    ;

    fn colours(&self) -> (r: &Colours)
        ensures
            *r == self.palette(),
    ;
}

/// The terminal's choice of colours.
#[derive(Debug, Copy, Clone)]
pub struct TerminalPrinter {
    pub colours: Colours,
}

impl TerminalPrinter {
    /// A terminal with colours.
    pub fn new() -> (r: TerminalPrinter)
        ensures
            r.colours == with_colours(),
    {
        TerminalPrinter { colours: Colours::coloured() }
    }

    /// A terminal without colours.
    pub fn new_plain() -> (r: TerminalPrinter)
        ensures
            r.colours == no_colours(),
    {
        TerminalPrinter { colours: Colours::plain() }
    }
}

/// A printer that keeps what is printed, for inspection.
pub struct MockPrinter {
    sink: String,
    colours: Colours,
}

impl MockPrinter {
    /// An empty printer without colours.
    pub fn new() -> (r: MockPrinter)
        ensures
            r.printed() == Seq::<char>::empty(),
            r.palette() == no_colours(),
    {
        MockPrinter { sink: String::new(), colours: Colours::plain() }
    }

    /// An empty printer with the given colours.
    pub fn with_colours(colours: Colours) -> (r: MockPrinter)
        ensures
            r.printed() == Seq::<char>::empty(),
            r.palette() == colours,
    {
        MockPrinter { sink: String::new(), colours }
    }

    /// Hands out what was printed since the last call and forgets it.
    pub fn flush(&mut self) -> (r: String)
        ensures
            r@ == old(self).printed(),
            final(self).printed() == Seq::<char>::empty(),
            final(self).palette() == old(self).palette(),
    {
        let mut text = String::new();
        std::mem::swap(&mut self.sink, &mut text);
        text
    }
}

impl Printer for MockPrinter {
    closed spec fn printed(&self) -> Seq<char> {
        self.sink@
    }

    closed spec fn palette(&self) -> Colours {
        self.colours
    }

    fn print(&mut self, text: String) {
        self.sink.append(text.as_str());
    }

    fn colours(&self) -> (r: &Colours) {
        &self.colours
    }
}

} // verus!
