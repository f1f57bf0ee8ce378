//! The plain state of the key generator and file hasher screens, and what
//! their buttons do to it.

use vstd::prelude::*;
use crate::text::{owned, push_str};
use crate::crypto_meta::CryptoRequest;
use crate::converter::{convert, conversion, validate_input, validation, ConvType};

verus! {

/// The key sizes (in bits) the key generator offers.
pub open spec fn key_sizes_spec() -> Seq<u32> {
    seq![64u32, 128, 192, 256, 512]
}

/// The key sizes (in bits) the key generator offers.
pub fn key_sizes() -> (r: Vec<u32>)
    ensures
        r@ == key_sizes_spec(),
{
    let r = vec![64u32, 128, 192, 256, 512];
    assert(r@ =~= key_sizes_spec());
    r
}

/// The key generator screen.
#[derive(Debug)]
pub struct KeyGeneratorState {
    /// The selected size, in bits.
    pub key_size: u32,
    pub generated_key: String,
    /// The size the shown key was generated at (the selection may change
    /// afterwards without regenerating).
    pub generated_bits: u32,
}

impl KeyGeneratorState {
    /// The screen as it opens: 256 bits selected, no key.
    pub fn new() -> (s: Self)
        ensures
            s.key_size == 256,
            s.generated_key@.len() == 0,
            s.generated_bits == 0,
    {
        KeyGeneratorState { key_size: 256, generated_key: String::new(), generated_bits: 0 }
    }

    /// The primitive the "Generate key" button runs.
    pub fn generate_request(&self) -> (r: CryptoRequest)
        ensures
            r@ == crate::crypto_meta::CryptoOp::GenerateKey(self.key_size),
    {
        CryptoRequest::GenerateKey { bits: self.key_size }
    }

    /// Shows the generated key (or the error) and returns the key to
    /// remember with its length in bytes.
    pub fn apply_generated(&mut self, reply: Result<String, String>) -> (k: Option<(String, usize)>)
        ensures
            final(self).key_size == old(self).key_size,
            match reply {
                Ok(key) => {
                    &&& final(self).generated_key@ == key@
                    &&& final(self).generated_bits == old(self).key_size
                    &&& k matches Some((name, n)) && name@ == key@ && n == old(self).key_size / 8
                },
                Err(e) => {
                    &&& final(self).generated_key@ == "Error: "@ + e@
                    &&& final(self).generated_bits == old(self).generated_bits
                    &&& k is None
                },
            },
    {
        match reply {
            Ok(key) => {
                let bits = self.key_size;
                self.generated_key = key.clone();
                self.generated_bits = bits;
                Some((key, (bits / 8) as usize))
            },
            Err(e) => {
                let mut msg = owned("Error: ");
                push_str(&mut msg, e.as_str());
                self.generated_key = msg;
                None
            },
        }
    }

    /// The "Clear" button: hides the generated key.
    pub fn clear(&mut self)
        ensures
            final(self).generated_key@.len() == 0,
            final(self).key_size == old(self).key_size,
            final(self).generated_bits == old(self).generated_bits,
    {
        self.generated_key = String::new();
    }
}

/// The file hasher screen.
#[derive(Debug)]
pub struct FileHasherState {
    pub filename: String,
    pub filesize: u64,
    pub hash: String,
}

impl FileHasherState {
    /// The screen as it opens (and after "Clear"): nothing shown.
    pub fn new() -> (s: Self)
        ensures
            s.filename@.len() == 0,
            s.filesize == 0,
            s.hash@.len() == 0,
    {
        FileHasherState { filename: String::new(), filesize: 0, hash: String::new() }
    }

    /// Shows a file that was read and hashed.
    pub fn record_file(&mut self, filename: String, size: u64, hash: String)
        ensures
            final(self).filename == filename,
            final(self).filesize == size,
            final(self).hash == hash,
    {
        self.filename = filename;
        self.filesize = size;
        self.hash = hash;
    }

    /// Shows that the chosen file could not be read.
    pub fn record_error(&mut self, message: &str)
        ensures
            final(self).filename@.len() == 0,
            final(self).filesize == 0,
            final(self).hash@ == "Error reading file: "@ + message@,
    {
        self.filename = String::new();
        self.filesize = 0;
        let mut h = owned("Error reading file: ");
        push_str(&mut h, message);
        self.hash = h;
    }
}

/// The converter screen, without its text field (whose content is handed
/// to [`ConverterState::run`]).
#[derive(Debug)]
pub struct ConverterState {
    pub from_type: ConvType,
    pub to_type: ConvType,
    pub output: String,
    pub input_error: String,
}

/// What the converter shows after "Convert" on `input`: `(output, error)`.
pub open spec fn converter_shows(input: Seq<char>, from: ConvType, to: ConvType) -> (Seq<char>, Seq<char>) {
    match validation(input, from) {
        Err(e) => (Seq::empty(), e),
        Ok(()) => match conversion(input, from, to) {
            Ok(out) => (out, Seq::empty()),
            Err(e) => (Seq::empty(), e),
        },
    }
}

/// The targets offered when converting from `from`: the other two
/// representations, in canonical order.
pub open spec fn target_options(from: ConvType) -> Seq<ConvType> {
    match from {
        ConvType::Text => seq![ConvType::Binary, ConvType::Base64],
        ConvType::Binary => seq![ConvType::Text, ConvType::Base64],
        ConvType::Base64 => seq![ConvType::Text, ConvType::Binary],
    }
}

impl ConverterState {
    /// The converter never converts a representation to itself.
    pub open spec fn wf(&self) -> bool {
        self.from_type != self.to_type
    }

    /// The screen as it opens: Text to Base64, nothing shown.
    pub fn new() -> (s: Self)
        ensures
            s.wf(),
            s.from_type == ConvType::Text,
            s.to_type == ConvType::Base64,
            s.output@.len() == 0,
            s.input_error@.len() == 0,
    {
        ConverterState {
            from_type: ConvType::Text,
            to_type: ConvType::Base64,
            output: String::new(),
            input_error: String::new(),
        }
    }

    /// The targets offered for the current source: every representation
    /// but the source, in canonical order.
    pub fn to_options(&self) -> (r: Vec<ConvType>)
        ensures
            r@ == target_options(self.from_type),
    {
        let all = ConvType::all();
        let mut r: Vec<ConvType> = Vec::new();
        if all[0] != self.from_type {
            r.push(all[0]);
        }
        if all[1] != self.from_type {
            r.push(all[1]);
        }
        if all[2] != self.from_type {
            r.push(all[2]);
        }
        assert(r@ =~= target_options(self.from_type));
        r
    }

    /// Picks the source; a target equal to it moves to the first other
    /// representation. Clears what was shown.
    pub fn select_from(&mut self, t: ConvType)
        requires
            old(self).wf(),
        ensures
            final(self).wf(),
            final(self).from_type == t,
            old(self).to_type != t ==> final(self).to_type == old(self).to_type,
            old(self).to_type == t && t == ConvType::Text ==> final(self).to_type == ConvType::Binary,
            old(self).to_type == t && t != ConvType::Text ==> final(self).to_type == ConvType::Text,
            final(self).output@.len() == 0,
            final(self).input_error@.len() == 0,
    {
        self.from_type = t;
        if self.to_type == t {
            self.to_type = t.first_other();
        }
        self.output = String::new();
        self.input_error = String::new();
    }

    /// Picks one of the offered targets. Clears the output.
    pub fn select_to(&mut self, t: ConvType)
        requires
            old(self).wf(),
            t != old(self).from_type,
        ensures
            final(self).wf(),
            final(self).from_type == old(self).from_type,
            final(self).to_type == t,
            final(self).output@.len() == 0,
            final(self).input_error == old(self).input_error,
    {
        self.to_type = t;
        self.output = String::new();
    }

    /// The "Clear" button: clears what was shown.
    pub fn clear(&mut self)
        requires
            old(self).wf(),
        ensures
            final(self).wf(),
            final(self).from_type == old(self).from_type,
            final(self).to_type == old(self).to_type,
            final(self).output@.len() == 0,
            final(self).input_error@.len() == 0,
    {
        self.output = String::new();
        self.input_error = String::new();
    }

    /// The "Convert" button: checks `input`, converts it, and shows the
    /// result or the error.
    pub fn run(&mut self, input: &str)
        requires
            old(self).wf(),
        ensures
            final(self).wf(),
            final(self).from_type == old(self).from_type,
            final(self).to_type == old(self).to_type,
            (final(self).output@, final(self).input_error@) == converter_shows(
                input@,
                old(self).from_type,
                old(self).to_type,
            ),
    {
        match validate_input(input, self.from_type) {
            Err(e) => {
                self.input_error = e;
                self.output = String::new();
            },
            Ok(()) => match convert(input, self.from_type, self.to_type) {
                Ok(out) => {
                    self.input_error = String::new();
                    self.output = out;
                },
                Err(e) => {
                    self.input_error = e;
                    self.output = String::new();
                },
            },
        }
    }
}

} // verus!
