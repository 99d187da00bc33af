//! The upload client's decisions: where to send, what to send along with a
//! file, and what the service's answer means. Sending is left to the caller.

use crate::consts::{BASE_URL, OK_CODE, SEGMENT_BREAK, UPLOAD_PATH, ZIP_SUFFIX};
use crate::errors::Fault;
use crate::text::{same_text, split, split_on, strip_suffix, without_suffix};
use vstd::prelude::*;
use vstd::utf8::encode_utf8;

verus! {

/// Where uploads go, and the token that authorises them.
#[derive(Debug)]
pub struct Http {
    token: String,
    upload_url: String,
}

/// The answer of the service to an upload.
#[derive(Debug, Clone, PartialEq, Eq)]
pub struct ResBody {
    /// The status that the service reports.
    pub code: String,
    /// What the service says besides.
    pub data: String,
}

/// What is sent along with an uploaded file.
#[derive(Debug, Clone, PartialEq, Eq)]
pub struct UploadDescriptor {
    /// The name under which the file is shown.
    pub display_name: String,
    /// The width read from the file name, or nothing.
    pub width: String,
    /// The height read from the file name, or nothing.
    pub height: String,
    /// Whether the file name has too few segments to be a legal one.
    pub warning: bool,
}

/// What is sent for one upload, and where.
#[derive(Debug, Clone, PartialEq, Eq)]
pub struct UploadRequest {
    /// The address to post to.
    pub url: String,
    /// The token for the header.
    pub token: String,
    /// The fields that go with the file.
    pub descriptor: UploadDescriptor,
}

/// A descriptor, its texts taken by their characters.
pub struct UploadDescriptorView {
    pub display_name: Seq<char>,
    pub width: Seq<char>,
    pub height: Seq<char>,
    pub warning: bool,
}

impl View for UploadDescriptor {
    type V = UploadDescriptorView;

    open spec fn view(&self) -> UploadDescriptorView {
        UploadDescriptorView {
            display_name: self.display_name@,
            width: self.width@,
            height: self.height@,
            warning: self.warning,
        }
    }
}

/// The file name without the archive suffix, where it has one.
pub open spec fn stem(filename: Seq<char>) -> Seq<char> {
    match without_suffix(filename, ZIP_SUFFIX@) {
        Some(stem) => stem,
        None => filename,
    }
}

/// The segments of the file name.
pub open spec fn segments(filename: Seq<char>) -> Seq<Seq<char>> {
    split_on(stem(filename), '_')
}

/// The name under which a file is shown: the override and the second
/// segment, where there is an override and there are at least three
/// segments; else the file name as it is.
pub open spec fn shown_name(filename: Seq<char>, name_override: Option<Seq<char>>) -> Seq<char> {
    match name_override {
        Some(name) => if segments(filename).len() >= 3 {
            name + SEGMENT_BREAK@ + segments(filename)[1]
        } else {
            filename
        },
        None => filename,
    }
}

/// The parts of the last segment on both sides of each `X`.
pub open spec fn size_parts(filename: Seq<char>) -> Seq<Seq<char>> {
    split_on(segments(filename).last(), 'X')
}

/// Whether width and height are read off the file name: the display name is
/// longer than two bytes, and the last segment has exactly two parts.
pub open spec fn has_size(filename: Seq<char>, name_override: Option<Seq<char>>) -> bool {
    encode_utf8(shown_name(filename, name_override)).len() > 2 && size_parts(filename).len() == 2
}

/// What is sent along with the file named `filename`.
pub open spec fn described(filename: Seq<char>, name_override: Option<Seq<char>>) -> UploadDescriptorView {
    UploadDescriptorView {
        display_name: shown_name(filename, name_override),
        width: if has_size(filename, name_override) {
            size_parts(filename)[0]
        } else {
            Seq::empty()
        },
        height: if has_size(filename, name_override) {
            size_parts(filename)[1]
        } else {
            Seq::empty()
        },
        warning: segments(filename).len() < 3,
    }
}

/// The view of an optional name.
pub open spec fn name_view(name: Option<String>) -> Option<Seq<char>> {
    match name {
        Some(n) => Some(n@),
        None => None,
    }
}

impl UploadDescriptor {
    /// Reads the display name and the size off a file name such as
    /// `A002_GG42_1100X600.zip`. A name of another shape is no error: it gives
    /// the file name itself and no size.
    pub fn parse(filename: &str, name_override: &Option<String>) -> (d: UploadDescriptor)
        ensures
            d@ == described(filename@, name_view(*name_override)),
    {
        let stem_text = match strip_suffix(filename, ZIP_SUFFIX) {
            Some(stem) => stem,
            None => String::from_str(filename),
        };
        assert(stem_text@ == stem(filename@));
        let parts = split(stem_text.as_str(), '_');
        assert(parts@.len() >= 1);
        let few = parts.len() < 3;
        let display_name = match name_override {
            Some(name) => {
                if few {
                    String::from_str(filename)
                } else {
                    let mut shown = name.clone();
                    shown.append(SEGMENT_BREAK);
                    shown.append(parts[1].as_str());
                    shown
                }
            },
            None => String::from_str(filename),
        };
        assert(display_name@ == shown_name(filename@, name_view(*name_override)));
        let mut width = String::new();
        let mut height = String::new();
        let ghost expected = described(filename@, name_view(*name_override));
        if display_name.as_str().as_bytes().len() > 2 {
            let last = &parts[parts.len() - 1];
            assert(last@ == segments(filename@).last());
            let size = split(last.as_str(), 'X');
            if size.len() == 2 {
                width = size[0].clone();
                height = size[1].clone();
                assert(width@ == size_parts(filename@)[0]);
                assert(height@ == size_parts(filename@)[1]);
            }
        }
        assert(width@ == expected.width);
        assert(height@ == expected.height);
        UploadDescriptor { display_name, width, height, warning: few }
    }
}

impl ResBody {
    /// The answer with this code and this data.
    pub fn new(code: String, data: String) -> (body: ResBody)
        ensures
            body.code == code,
            body.data == data,
    {
        ResBody { code, data }
    }

    /// Whether the answer reports success, which it does by the code alone,
    /// compared as text.
    pub open spec fn accepted(&self) -> bool {
        self.code@ == OK_CODE@
    }

    /// What the answer means for the upload sent under `name`: success, or a
    /// failure that carries the name and the answer.
    pub fn verdict(&self, name: &str) -> (r: Result<(), Fault>)
        ensures
            self.accepted() ==> r is Ok,
            !self.accepted() ==> (r matches Err(Fault::Rejected { name: n, code, data }) && n@
                == name@ && code@ == self.code@ && data@ == self.data@),
    {
        if same_text(self.code.as_str(), OK_CODE) {
            Ok(())
        } else {
            Err(
                Fault::Rejected {
                    name: String::from_str(name),
                    code: self.code.clone(),
                    data: self.data.clone(),
                },
            )
        }
    }
}

impl Http {
    /// The client for the service at `base_url`, or at the usual place where
    /// none is given.
    pub fn new(base_url: Option<&str>, token: &str) -> (http: Http)
        ensures
            http.token() == token@,
            http.upload_url() == Http::new_url(
                match base_url {
                    Some(base) => Some(base@),
                    None => None,
                },
            ),
    {
        let base = match base_url {
            Some(base) => base,
            None => BASE_URL,
        };
        let mut upload_url = String::from_str(base);
        upload_url.append(UPLOAD_PATH);
        Http { token: String::from_str(token), upload_url }
    }

    /// The address for uploads to the service at `base_url`, or at the usual
    /// place where none is given.
    pub open spec fn new_url(base_url: Option<Seq<char>>) -> Seq<char> {
        let base = match base_url {
            Some(base) => base,
            None => BASE_URL@,
        };
        base + UPLOAD_PATH@
    }

    /// The token sent in the header of each upload.
    pub closed spec fn token(&self) -> Seq<char> {
        self.token@
    }

    /// The address that uploads are posted to.
    pub closed spec fn upload_url(&self) -> Seq<char> {
        self.upload_url@
    }

    /// What is sent to upload the file named `filename`, and where. Sending
    /// it, and the file with it, is left to the caller, who hands the answer
    /// to `ResBody::verdict`.
    pub fn upload(&self, filename: &str, name_suffix: &Option<String>) -> (request: UploadRequest)
        ensures
            request.url@ == self.upload_url(),
            request.token@ == self.token(),
            request.descriptor@ == described(filename@, name_view(*name_suffix)),
    {
        UploadRequest {
            url: self.upload_url.clone(),
            token: self.token.clone(),
            descriptor: UploadDescriptor::parse(filename, name_suffix),
        }
    }

    /// The token sent in the header of each upload.
    pub fn get_token(&self) -> (token: &str)
        ensures
            token@ == self.token(),
    {
        self.token.as_str()
    }

    /// The address that uploads are posted to.
    pub fn get_upload_url(&self) -> (url: &str)
        ensures
            url@ == self.upload_url(),
    {
        self.upload_url.as_str()
    }
}

} // verus!
