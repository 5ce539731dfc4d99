//! How resources are printed: as a table or as JSON lines.

use vstd::prelude::*;
use crate::text::{owned, str_eq};

verus! {

/// The output format of listings.
#[derive(Copy, Clone, Debug, PartialEq, Eq, Structural)]
pub enum OutputFormat {
    Json,
    Table,
}

impl Default for OutputFormat {
    /// Tables, unless asked otherwise.
    fn default() -> (format: OutputFormat)
        ensures
            format == OutputFormat::Table,
    {
        OutputFormat::Table
    }
}

impl OutputFormat {
    /// Reads an output format: `table` or `json`; any other text is refused
    /// and handed back as the error.
    pub fn parse(text: &str) -> (format: Result<OutputFormat, String>)
        ensures
            text@ == "table"@ ==> format == Ok::<OutputFormat, String>(OutputFormat::Table),
            text@ == "json"@ ==> format == Ok::<OutputFormat, String>(OutputFormat::Json),
            text@ != "table"@ && text@ != "json"@ ==> (format matches Err(e) && e@ == text@),
    {
        proof {
            reveal_strlit("table");
            reveal_strlit("json");
            assert("table"@[0] != "json"@[0]);
        }
        if str_eq(text, "table") {
            Ok(OutputFormat::Table)
        } else if str_eq(text, "json") {
            Ok(OutputFormat::Json)
        } else {
            Err(owned(text))
        }
    }
}

impl std::str::FromStr for OutputFormat {
    type Err = String;

    fn from_str(text: &str) -> (format: Result<OutputFormat, String>)
        ensures
            text@ == "table"@ ==> format == Ok::<OutputFormat, String>(OutputFormat::Table),
            text@ == "json"@ ==> format == Ok::<OutputFormat, String>(OutputFormat::Json),
            text@ != "table"@ && text@ != "json"@ ==> (format matches Err(e) && e@ == text@),
    {
        OutputFormat::parse(text)
    }
}

/// Prints resources in the chosen output format.
#[derive(Debug)]
pub struct Printer {
    output: OutputFormat,
}

impl Printer {
    /// A printer writing `output`.
    pub fn new(output: OutputFormat) -> (printer: Printer)
        ensures
            printer.format() == output,
    {
        Printer { output }
    }

    /// The output format.
    pub closed spec fn format(&self) -> OutputFormat {
        self.output
    }

    /// The output format.
    pub fn output(&self) -> (output: OutputFormat)
        ensures
            output == self.format(),
    {
        self.output
    }
}

impl Default for Printer {
    /// A printer writing tables.
    fn default() -> (printer: Printer)
        ensures
            printer.format() == OutputFormat::Table,
    {
        Printer { output: OutputFormat::Table }
    }
}

} // verus!
