//! The library's error type.

use vstd::prelude::*;

verus! {

/// Everything that can go wrong while working with a peripheral.
///
/// Failures reported by the device layer carry that layer's own
/// description of the failure.
#[derive(Debug, Clone)]
pub enum PeriphError {
    /// The requested peripheral kind has no backend.
    UnsupportedKind(String),
    /// The input given by the user cannot be used.
    InvalidInput(String),
    /// An operating-system I/O failure.
    Io(String),
    /// A failure reported by the serial-port layer.
    Serial(String),
    /// A failure reported by the HID layer.
    Hid(String),
}

impl PeriphError {
    /// The text shown for this error.
    pub open spec fn text(&self) -> Seq<char> {
        match self {
            PeriphError::UnsupportedKind(s) => "unsupported peripheral kind: "@ + s@,
            PeriphError::InvalidInput(s) => "invalid input: "@ + s@,
            PeriphError::Io(s) => "io error: "@ + s@,
            PeriphError::Serial(s) => "serial error: "@ + s@,
            PeriphError::Hid(s) => "hid error: "@ + s@,
        }
    }

    /// Renders the error for a person to read.
    pub fn message(&self) -> (r: String)
        ensures
            r@ == self.text(),
    {
        let (prefix, detail) = match self {
            PeriphError::UnsupportedKind(s) => ("unsupported peripheral kind: ", s),
            PeriphError::InvalidInput(s) => ("invalid input: ", s),
            PeriphError::Io(s) => ("io error: ", s),
            PeriphError::Serial(s) => ("serial error: ", s),
            PeriphError::Hid(s) => ("hid error: ", s),
        };
        let mut r = String::from_str(prefix);
        r.append(detail.as_str());
        r
    }
}

/// Every error's text ends with the detail it carries, and errors of
/// different kinds read differently.
pub proof fn lemma_error_text_shape(e: PeriphError)
    ensures
        match e {
            PeriphError::UnsupportedKind(s) => e.text().skip(e.text().len() - s@.len()) == s@,
            PeriphError::InvalidInput(s) => e.text().skip(e.text().len() - s@.len()) == s@,
            PeriphError::Io(s) => e.text().skip(e.text().len() - s@.len()) == s@,
            PeriphError::Serial(s) => e.text().skip(e.text().len() - s@.len()) == s@,
            PeriphError::Hid(s) => e.text().skip(e.text().len() - s@.len()) == s@,
        },
        match e {
            PeriphError::UnsupportedKind(_) => e.text()[0] == 'u',
            PeriphError::InvalidInput(_) => e.text()[0] == 'i' && e.text()[1] == 'n',
            PeriphError::Io(_) => e.text()[0] == 'i' && e.text()[1] == 'o',
            PeriphError::Serial(_) => e.text()[0] == 's',
            PeriphError::Hid(_) => e.text()[0] == 'h',
        },
{
    reveal_strlit("unsupported peripheral kind: ");
    reveal_strlit("invalid input: ");
    reveal_strlit("io error: ");
    reveal_strlit("serial error: ");
    reveal_strlit("hid error: ");
    let t = e.text();
    match e {
        PeriphError::UnsupportedKind(s) => assert(t.skip(t.len() - s@.len()) =~= s@),
        PeriphError::InvalidInput(s) => assert(t.skip(t.len() - s@.len()) =~= s@),
        PeriphError::Io(s) => assert(t.skip(t.len() - s@.len()) =~= s@),
        PeriphError::Serial(s) => assert(t.skip(t.len() - s@.len()) =~= s@),
        PeriphError::Hid(s) => assert(t.skip(t.len() - s@.len()) =~= s@),
    }
}

} // verus!
