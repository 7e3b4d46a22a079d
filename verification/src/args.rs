//! The options of the command line, and what a complete set of them asks
//! for.

use vstd::prelude::*;
use vstd::string::StringExecFns;
use crate::text::{chars_of, same_text};

verus! {

/// An option of the command line.
#[derive(Clone, Copy, Debug, PartialEq, Eq, Structural)]
pub enum Flag {
    Font,
    Testcase,
    Engine,
    Render,
    Variation,
    Version,
}

/// What the command line asks for. `T` is the type of an option's value.
#[derive(Debug)]
pub enum Args<T> {
    /// Print the name of the engine and the version of the shaper.
    PrintVersion { engine: T },
    /// Render a line of text.
    Render { engine: T, font: T, testcase: T, render: Option<T>, variation: Option<T> },
}

/// An option that the command line lacks.
#[derive(Clone, Copy, Debug, PartialEq, Eq, Structural)]
pub enum ArgError {
    MissingEngine,
    MissingFont,
    MissingTestcase,
}

/// The options read so far.
pub struct Options<T> {
    pub font: Option<T>,
    pub testcase: Option<T>,
    pub engine: Option<T>,
    pub render: Option<T>,
    pub variation: Option<T>,
    pub version: bool,
}

/// The option with the long name `name`.
pub open spec fn flag_named(name: Seq<char>) -> Option<Flag> {
    if name == "font"@ {
        Some(Flag::Font)
    } else if name == "testcase"@ {
        Some(Flag::Testcase)
    } else if name == "engine"@ {
        Some(Flag::Engine)
    } else if name == "render"@ {
        Some(Flag::Render)
    } else if name == "variation"@ {
        Some(Flag::Variation)
    } else if name == "version"@ {
        Some(Flag::Version)
    } else {
        None
    }
}

/// What a complete set of options asks for: with `version`, the version
/// of the engine; else a rendering, for which engine, font and test case
/// are needed. The first option that is missing, in this order, is the
/// error.
pub open spec fn request<T>(options: Options<T>) -> Result<Args<T>, ArgError> {
    if options.engine is None {
        Err(ArgError::MissingEngine)
    } else if options.version {
        Ok(Args::PrintVersion { engine: options.engine->0 })
    } else if options.font is None {
        Err(ArgError::MissingFont)
    } else if options.testcase is None {
        Err(ArgError::MissingTestcase)
    } else {
        Ok(
            Args::Render {
                engine: options.engine->0,
                font: options.font->0,
                testcase: options.testcase->0,
                render: options.render,
                variation: options.variation,
            },
        )
    }
}

/// The version of the shaper that the outlines come from.
pub open spec fn shaper_version() -> Seq<char> {
    "0.2.1"@
}

/// Finds the option with the long name `name`.
pub fn flag_of(name: &str) -> (flag: Option<Flag>)
    ensures
        flag == flag_named(name@),
{
    let chars = chars_of(name);
    if same_text(&chars, "font") {
        Some(Flag::Font)
    } else if same_text(&chars, "testcase") {
        Some(Flag::Testcase)
    } else if same_text(&chars, "engine") {
        Some(Flag::Engine)
    } else if same_text(&chars, "render") {
        Some(Flag::Render)
    } else if same_text(&chars, "variation") {
        Some(Flag::Variation)
    } else if same_text(&chars, "version") {
        Some(Flag::Version)
    } else {
        None
    }
}

impl Flag {
    /// Every option but `version` is followed by a value.
    pub open spec fn has_value(self) -> bool {
        self != Flag::Version
    }

    pub fn takes_value(&self) -> (b: bool)
        ensures
            b == self.has_value(),
    {
        match self {
            Flag::Version => false,
            _ => true,
        }
    }
}

impl ArgError {
    /// The message of the error.
    pub open spec fn text(self) -> Seq<char> {
        match self {
            ArgError::MissingEngine => "missing engine argument"@,
            ArgError::MissingFont => "missing font argument"@,
            ArgError::MissingTestcase => "missing testcase argument"@,
        }
    }

    pub fn message(&self) -> (s: String)
        ensures
            s@ == self.text(),
    {
        match self {
            ArgError::MissingEngine => "missing engine argument".to_owned(),
            ArgError::MissingFont => "missing font argument".to_owned(),
            ArgError::MissingTestcase => "missing testcase argument".to_owned(),
        }
    }
}

impl<T> Options<T> {
    /// No option read yet.
    pub fn new() -> (options: Options<T>)
        ensures
            options.font is None,
            options.testcase is None,
            options.engine is None,
            options.render is None,
            options.variation is None,
            !options.version,
    {
        Options {
            font: None,
            testcase: None,
            engine: None,
            render: None,
            variation: None,
            version: false,
        }
    }

    /// The options after `flag` was read with the value `value`. A later
    /// value of an option replaces an earlier one; `version` has no value
    /// and is set by `set_version`.
    pub open spec fn with(self, flag: Flag, value: T) -> Options<T> {
        match flag {
            Flag::Font => Options { font: Some(value), ..self },
            Flag::Testcase => Options { testcase: Some(value), ..self },
            Flag::Engine => Options { engine: Some(value), ..self },
            Flag::Render => Options { render: Some(value), ..self },
            Flag::Variation => Options { variation: Some(value), ..self },
            Flag::Version => Options { version: true, ..self },
        }
    }

    /// Records the value of an option.
    pub fn set(&mut self, flag: Flag, value: T)
        ensures
            *final(self) == old(self).with(flag, value),
    {
        match flag {
            Flag::Font => {
                self.font = Some(value);
            },
            Flag::Testcase => {
                self.testcase = Some(value);
            },
            Flag::Engine => {
                self.engine = Some(value);
            },
            Flag::Render => {
                self.render = Some(value);
            },
            Flag::Variation => {
                self.variation = Some(value);
            },
            Flag::Version => {
                self.version = true;
            },
        }
    }

    /// Records that the version was asked for.
    pub fn set_version(&mut self)
        ensures
            *final(self) == (Options { version: true, ..*old(self) }),
    {
        self.version = true;
    }

    /// Decides what the options ask for.
    pub fn finish(self) -> (out: Result<Args<T>, ArgError>)
        ensures
            out == request(self),
    {
        let engine = match self.engine {
            Some(engine) => engine,
            None => {
                return Err(ArgError::MissingEngine);
            },
        };
        if self.version {
            return Ok(Args::PrintVersion { engine });
        }
        let font = match self.font {
            Some(font) => font,
            None => {
                return Err(ArgError::MissingFont);
            },
        };
        let testcase = match self.testcase {
            Some(testcase) => testcase,
            None => {
                return Err(ArgError::MissingTestcase);
            },
        };
        Ok(Args::Render { engine, font, testcase, render: self.render, variation: self.variation })
    }
}

/// The line that answers a question for the version: the name of the
/// engine, a slash, and the version of the shaper.
pub fn version_line(engine: &str) -> (line: String)
    ensures
        line@ == engine@ + seq!['/'] + shaper_version(),
{
    let mut line = String::new();
    line.append(engine);
    line.push('/');
    line.append("0.2.1");
    assert(line@ =~= engine@ + seq!['/'] + shaper_version());
    line
}

} // verus!
