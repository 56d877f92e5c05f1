//! Source and binary files: which extension each mode expects, and how
//! machine code is laid out in a binary file.

use vstd::prelude::*;
use crate::cli::args::{opt_view, Mode};
use crate::error::{is_usage_error, usage, AsmodeusError};
use crate::text::{decimal, decimal_exec, eq_str, string_of};

verus! {

/// The extension of `path`: what `std::path::Path::extension` gives for it.
pub uninterp spec fn path_extension(path: Seq<char>) -> Option<Seq<char>>;

/// `std::path::Path::extension` of `path`, as text. The contract names the
/// result only: what the extension is (the part of the last path component
/// after its last `.`, subject to the rules for leading dots and `..`) is
/// std's definition and is not restated here.
#[verifier::external_body]
fn extension_of(path: &str) -> (r: Option<String>)
    ensures
        opt_view(r) == path_extension(path@),
{
    std::path::Path::new(path).extension().and_then(|e| e.to_str()).map(|e| e.to_string())
}

/// Whether `mode` reads an Asmodeus source file.
pub open spec fn reads_source(mode: Mode) -> bool {
    mode == Mode::Run || mode == Mode::Assemble || mode == Mode::Debug || mode == Mode::Interactive
}

/// What checking the extension `ext` for `mode` gives: `Ok` for `.asmod`
/// (or `.asm`) sources and `.bin` binaries, for modes that take no file, and for the
/// check and format modes; otherwise the usage error naming what was expected.
pub open spec fn extension_outcome(ext: Option<Seq<char>>, mode: Mode, r: Result<(), AsmodeusError>) -> bool {
    match ext {
        Some(e) => if reads_source(mode) {
            if e == "asmod"@ || e == "asm"@ {
                r is Ok
            } else {
                r matches Err(err) && is_usage_error(
                    err,
                    "Expected .asmod or .asm file, but got ."@ + e
                        + " file. Please use a valid Asmodeus source file."@,
                )
            }
        } else if mode == Mode::Disassemble {
            if e == "bin"@ {
                r is Ok
            } else {
                r matches Err(err) && is_usage_error(
                    err,
                    "Expected .bin file for disassembly, but got ."@ + e + " file."@,
                )
            }
        } else {
            r is Ok
        },
        None => if mode == Mode::Help || mode == Mode::Examples || mode == Mode::New {
            r is Ok
        } else {
            r matches Err(err) && is_usage_error(
                err,
                "File has no extension. Expected: .asmod for run/assemble/debug, .bin for disassemble"@,
            )
        },
    }
}

/// Checks a file's extension `extension` against what `mode` expects.
pub fn check_extension(extension: Option<&str>, mode: Mode) -> (r: Result<(), AsmodeusError>)
    ensures
        extension_outcome(
            match extension {
                Some(e) => Some(e@),
                None => None,
            },
            mode,
            r,
        ),
{
    match extension {
        Some(ext) => {
            if mode == Mode::Run || mode == Mode::Assemble || mode == Mode::Debug || mode
                == Mode::Interactive {
                if eq_str(ext, "asmod") || eq_str(ext, "asm") {
                    Ok(())
                } else {
                    let mut msg = "Expected .asmod or .asm file, but got .".to_owned();
                    msg.append(ext);
                    msg.append(" file. Please use a valid Asmodeus source file.");
                    Err(AsmodeusError::UsageError(msg))
                }
            } else if mode == Mode::Disassemble {
                if eq_str(ext, "bin") {
                    Ok(())
                } else {
                    let mut msg = "Expected .bin file for disassembly, but got .".to_owned();
                    msg.append(ext);
                    msg.append(" file.");
                    Err(AsmodeusError::UsageError(msg))
                }
            } else {
                Ok(())
            }
        },
        None => {
            if mode == Mode::Help || mode == Mode::Examples || mode == Mode::New {
                Ok(())
            } else {
                Err(
                    usage(
                        "File has no extension. Expected: .asmod for run/assemble/debug, .bin for disassemble",
                    ),
                )
            }
        },
    }
}

/// Checks that the file at `path` has the extension that `mode` expects.
pub fn validate_file_extension(path: &str, mode: Mode) -> (r: Result<(), AsmodeusError>)
    ensures
        extension_outcome(path_extension(path@), mode, r),
{
    let ext = extension_of(path);
    match &ext {
        Some(e) => check_extension(Some(e.as_str()), mode),
        None => check_extension(None, mode),
    }
}

/// A word's two bytes, least significant first (`u16::to_le_bytes`).
pub open spec fn le_bytes(w: u16) -> Seq<u8> {
    seq![(w % 256) as u8, (w / 256) as u8]
}

/// Machine code as bytes: each word, least significant byte first.
pub open spec fn encoded_words(words: Seq<u16>) -> Seq<u8>
    decreases words.len(),
{
    if words.len() == 0 {
        seq![]
    } else {
        encoded_words(words.drop_last()) + le_bytes(words.last())
    }
}

/// The words of a byte sequence of even length, each from two bytes
/// least significant first (`u16::from_le_bytes`).
pub open spec fn decoded_words(bytes: Seq<u8>) -> Seq<u16> {
    Seq::new(bytes.len() / 2, |i: int| (bytes[2 * i] + 256 * bytes[2 * i + 1]) as u16)
}

/// Machine code laid out as the bytes of a binary file.
pub fn words_to_bytes(data: &[u16]) -> (r: Vec<u8>)
    ensures
        r@ == encoded_words(data@),
{
    let mut r: Vec<u8> = Vec::new();
    let mut i: usize = 0;
    while i < data.len()
        invariant
            i <= data@.len(),
            r@ == encoded_words(data@.take(i as int)),
        decreases data@.len() - i,
    {
        let w = data[i];
        assert(data@.take(i + 1).drop_last() =~= data@.take(i as int));
        r.push((w % 256) as u8);
        r.push((w / 256) as u8);
        i += 1;
        assert(r@ =~= encoded_words(data@.take(i as int)));
    }
    assert(data@.take(data@.len() as int) =~= data@);
    r
}

/// What reading the bytes of the binary file `path` gives: its words, or,
/// for an odd number of bytes, the usage error that says so.
pub open spec fn bytes_outcome(path: Seq<char>, bytes: Seq<u8>, r: Result<Vec<u16>, AsmodeusError>) -> bool {
    if bytes.len() % 2 != 0 {
        r matches Err(e) && is_usage_error(
            e,
            "Binary file '"@ + path + "' has odd number of bytes ("@ + decimal(bytes.len()) + ")"@,
        )
    } else {
        r matches Ok(w) && w@ == decoded_words(bytes)
    }
}

/// Reads machine code from the bytes of the binary file `path`.
pub fn words_from_bytes(path: &str, bytes: &[u8]) -> (r: Result<Vec<u16>, AsmodeusError>)
    ensures
        bytes_outcome(path@, bytes@, r),
{
    let n = bytes.len();
    if n % 2 != 0 {
        let mut msg = "Binary file '".to_owned();
        msg.append(path);
        msg.append("' has odd number of bytes (");
        let digits = string_of(&decimal_exec(n as u64));
        msg.append(digits.as_str());
        msg.append(")");
        return Err(AsmodeusError::UsageError(msg));
    }
    let mut words: Vec<u16> = Vec::new();
    let mut i: usize = 0;
    while i < n / 2
        invariant
            n == bytes@.len(),
            n % 2 == 0,
            i <= n / 2,
            words@ == decoded_words(bytes@).take(i as int),
        decreases n / 2 - i,
    {
        let lo = bytes[2 * i];
        let hi = bytes[2 * i + 1];
        words.push((lo as u16) + (hi as u16) * 256);
        i += 1;
        assert(words@ =~= decoded_words(bytes@).take(i as int));
    }
    assert(decoded_words(bytes@).take((n / 2) as int) =~= decoded_words(bytes@));
    Ok(words)
}

/// Reading back the bytes of machine code gives the machine code.
pub proof fn lemma_bytes_roundtrip(words: Seq<u16>)
    ensures
        encoded_words(words).len() == 2 * words.len(),
        decoded_words(encoded_words(words)) == words,
    decreases words.len(),
{
    if words.len() > 0 {
        lemma_bytes_roundtrip(words.drop_last());
        let b = encoded_words(words);
        let p = encoded_words(words.drop_last());
        assert(decoded_words(b) =~= words) by {
            assert forall|i: int| 0 <= i < words.len() implies decoded_words(b)[i] == words[i] by {
                if i < words.len() - 1 {
                    assert(b[2 * i] == p[2 * i]);
                    assert(b[2 * i + 1] == p[2 * i + 1]);
                    assert(decoded_words(p)[i] == words.drop_last()[i]);
                } else {
                    let w = words.last();
                    assert(b[2 * i] == (w % 256) as u8);
                    assert(b[2 * i + 1] == (w / 256) as u8);
                }
            }
        }
    }
}

/// The machine code written to a binary file reads back unchanged: for any
/// words, reading the bytes that writing them gives yields the same words.
pub proof fn law_binary_roundtrip(words: Seq<u16>, path: Seq<char>, r: Result<Vec<u16>, AsmodeusError>)
    requires
        bytes_outcome(path, encoded_words(words), r),
    ensures
        r matches Ok(w) && w@ == words,
{
    lemma_bytes_roundtrip(words);
}

} // verus!

verus! {

/// Every mode that reads an Asmodeus source (run, assemble, debug and
/// interactive) accepts a file whose extension is `asmod` or `asm`, and the
/// disassemble mode accepts one whose extension is `bin` and refuses a
/// source: for any path and any result that checking its extension gives.
pub proof fn law_source_extensions_accepted(path: Seq<char>, mode: Mode, r: Result<(), AsmodeusError>)
    requires
        extension_outcome(path_extension(path), mode, r),
    ensures
        (mode == Mode::Run || mode == Mode::Assemble || mode == Mode::Debug || mode
            == Mode::Interactive) && (path_extension(path) == Some("asmod"@) || path_extension(path)
            == Some("asm"@)) ==> r is Ok,
        mode == Mode::Disassemble && path_extension(path) == Some("bin"@) ==> r is Ok,
        mode == Mode::Disassemble && (path_extension(path) == Some("asmod"@) || path_extension(path)
            == Some("asm"@)) ==> r is Err,
{
    reveal_strlit("asmod");
    reveal_strlit("asm");
    reveal_strlit("bin");
    assert("asmod"@.len() != "bin"@.len());
    assert("asm"@[0] != "bin"@[0]);
}

} // verus!
