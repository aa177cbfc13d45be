use vstd::prelude::*;

use crate::error::ContractError;

verus! {

/// Largest embedded logo, in bytes.
pub const LOGO_SIZE_CAP: usize = 5 * 1024;

pub const CLOSE: u8 = 0x3e;  // '>'

pub const QUESTION: u8 = 0x3f;  // '?'

/// An embedded image.
#[derive(Debug, Clone, PartialEq, Eq)]
pub enum EmbeddedLogo {
    Svg(Vec<u8>),
    Png(Vec<u8>),
}

/// A logo: a link to an image elsewhere, or the image itself.
#[derive(Debug, Clone, PartialEq, Eq)]
pub enum Logo {
    Url(String),
    Embedded(EmbeddedLogo),
}

/// What a download of an embedded logo hands out.
#[derive(Debug, Clone, PartialEq, Eq)]
pub struct DownloadLogoResponse {
    pub mime_type: String,
    pub data: Vec<u8>,
}

/// The bytes of `<?xml `.
pub open spec fn xml_prefix() -> Seq<u8> {
    seq![0x3cu8, 0x3fu8, 0x78u8, 0x6du8, 0x6cu8, 0x20u8]
}

/// The eight bytes that open every PNG file.
pub open spec fn png_header() -> Seq<u8> {
    seq![0x89u8, 0x50u8, 0x4eu8, 0x47u8, 0x0du8, 0x0au8, 0x1au8, 0x0au8]
}

/// `i` is the position of the first `>` in `d`.
pub open spec fn first_close(d: Seq<u8>, i: int) -> bool {
    0 <= i < d.len() && d[i] == CLOSE && forall|j: int| 0 <= j < i ==> d[j] != CLOSE
}

/// The preamble of `d` (its bytes up to and including the first `>`) starts
/// with `<?xml ` and ends with `?>`. Data without a `>` has no such preamble.
pub open spec fn xml_preamble_ok(d: Seq<u8>) -> bool {
    exists|i: int|
        first_close(d, i) && i + 1 >= xml_prefix().len() && d.subrange(0, 6) == xml_prefix() && i
            >= 1 && d[i - 1] == QUESTION
}

pub open spec fn xml_logo_result(d: Seq<u8>) -> Result<(), ContractError> {
    if !xml_preamble_ok(d) {
        Err(ContractError::InvalidXmlPreamble)
    } else if d.len() > LOGO_SIZE_CAP {
        Err(ContractError::LogoTooBig)
    } else {
        Ok(())
    }
}

pub open spec fn png_logo_result(d: Seq<u8>) -> Result<(), ContractError> {
    if d.len() > LOGO_SIZE_CAP {
        Err(ContractError::LogoTooBig)
    } else if !(d.len() >= 8 && d.subrange(0, 8) == png_header()) {
        Err(ContractError::InvalidPngHeader)
    } else {
        Ok(())
    }
}

pub open spec fn logo_result(logo: Logo) -> Result<(), ContractError> {
    match logo {
        Logo::Embedded(EmbeddedLogo::Svg(d)) => xml_logo_result(d@),
        Logo::Embedded(EmbeddedLogo::Png(d)) => png_logo_result(d@),
        Logo::Url(_) => Ok(()),
    }
}

/// Checks that `data` opens with an XML preamble `<?xml ... ?>`.
pub fn verify_xml_preamble(data: &[u8]) -> (r: Result<(), ContractError>)
    ensures
        r == (if xml_preamble_ok(data@) {
            Ok(())
        } else {
            Err(ContractError::InvalidXmlPreamble)
        }),
{
    let mut i: usize = 0;
    while i < data.len() && data[i] != CLOSE
        invariant
            0 <= i <= data@.len(),
            forall|j: int| 0 <= j < i ==> data@[j] != CLOSE,
        decreases data@.len() - i,
    {
        i = i + 1;
    }
    if i == data.len() {
        assert forall|k: int| !first_close(data@, k) by {
            if first_close(data@, k) {
                assert(data@[k] == CLOSE);
            }
        }
        return Err(ContractError::InvalidXmlPreamble);
    }
    assert(first_close(data@, i as int));
    assert forall|k: int| first_close(data@, k) implies k == i by {
        if k < i {
            assert(data@[k] != CLOSE);
        } else if k > i {
            assert(data@[i as int] != CLOSE);
        }
    }
    let opens = i >= 6 && data[0] == 0x3c && data[1] == 0x3f && data[2] == 0x78 && data[3] == 0x6d
        && data[4] == 0x6c && data[5] == 0x20;
    if opens && data[i - 1] == QUESTION {
        assert(data@.subrange(0, 6) =~= xml_prefix());
        Ok(())
    } else {
        proof {
            if xml_preamble_ok(data@) {
                let k = choose|k: int|
                    first_close(data@, k) && k + 1 >= xml_prefix().len() && data@.subrange(0, 6)
                        == xml_prefix() && k >= 1 && data@[k - 1] == QUESTION;
                assert(k == i);
                assert(data@.subrange(0, 6)[0] == 0x3c);
                assert(data@.subrange(0, 6)[1] == 0x3f);
                assert(data@.subrange(0, 6)[2] == 0x78);
                assert(data@.subrange(0, 6)[3] == 0x6d);
                assert(data@.subrange(0, 6)[4] == 0x6c);
                assert(data@.subrange(0, 6)[5] == 0x20);
                assert(data@[5] == 0x20);
                assert(i >= 6);
            }
        }
        Err(ContractError::InvalidXmlPreamble)
    }
}

/// Checks an SVG logo: an XML preamble, then the size cap.
pub fn verify_xml_logo(logo: &[u8]) -> (r: Result<(), ContractError>)
    ensures
        r == xml_logo_result(logo@),
{
    verify_xml_preamble(logo)?;
    if logo.len() > LOGO_SIZE_CAP {
        Err(ContractError::LogoTooBig)
    } else {
        Ok(())
    }
}

/// Checks a PNG logo: the size cap, then the PNG signature.
pub fn verify_png_logo(logo: &[u8]) -> (r: Result<(), ContractError>)
    ensures
        r == png_logo_result(logo@),
{
    if logo.len() > LOGO_SIZE_CAP {
        return Err(ContractError::LogoTooBig);
    }
    let signed = logo.len() >= 8 && logo[0] == 0x89 && logo[1] == 0x50 && logo[2] == 0x4e && logo[3]
        == 0x47 && logo[4] == 0x0d && logo[5] == 0x0a && logo[6] == 0x1a && logo[7] == 0x0a;
    if signed {
        assert(logo@.subrange(0, 8) =~= png_header());
        Ok(())
    } else {
        proof {
            if logo@.len() >= 8 && logo@.subrange(0, 8) == png_header() {
                assert(logo@.subrange(0, 8)[0] == 0x89);
                assert(logo@.subrange(0, 8)[1] == 0x50);
                assert(logo@.subrange(0, 8)[2] == 0x4e);
                assert(logo@.subrange(0, 8)[3] == 0x47);
                assert(logo@.subrange(0, 8)[4] == 0x0d);
                assert(logo@.subrange(0, 8)[5] == 0x0a);
                assert(logo@.subrange(0, 8)[6] == 0x1a);
                assert(logo@.subrange(0, 8)[7] == 0x0a);
            }
        }
        Err(ContractError::InvalidPngHeader)
    }
}

/// Checks a logo by its kind; a link is taken as it is.
pub fn verify_logo(logo: &Logo) -> (r: Result<(), ContractError>)
    ensures
        r == logo_result(*logo),
{
    match logo {
        Logo::Embedded(EmbeddedLogo::Svg(data)) => verify_xml_logo(data.as_slice()),
        Logo::Embedded(EmbeddedLogo::Png(data)) => verify_png_logo(data.as_slice()),
        Logo::Url(_) => Ok(()),
    }
}

} // verus!
