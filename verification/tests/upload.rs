use eris::consts::BASE_URL;
use eris::errors::Fault;
use eris::http::{Http, ResBody, UploadDescriptor, UploadRequest};

fn descriptor(name: &str, width: &str, height: &str, warning: bool) -> UploadDescriptor {
    UploadDescriptor {
        display_name: name.to_string(),
        width: width.to_string(),
        height: height.to_string(),
        warning,
    }
}

#[test]
fn override_replaces_the_first_segment() {
    assert_eq!(
        UploadDescriptor::parse("A002_GG42_1100X600.zip", &Some("NewName".to_string())),
        descriptor("NewName_GG42", "1100", "600", false)
    );
}

#[test]
fn plain_name_without_override() {
    assert_eq!(UploadDescriptor::parse("plain.zip", &None), descriptor("plain.zip", "", "", true));
}

#[test]
fn legal_name_without_override_keeps_the_file_name() {
    assert_eq!(
        UploadDescriptor::parse("A002_GG42_1100X600.zip", &None),
        descriptor("A002_GG42_1100X600.zip", "1100", "600", false)
    );
}

#[test]
fn override_with_too_few_segments_keeps_the_file_name() {
    assert_eq!(
        UploadDescriptor::parse("A002_1100X600.zip", &Some("N".to_string())),
        descriptor("A002_1100X600.zip", "1100", "600", true)
    );
}

#[test]
fn size_needs_exactly_two_parts() {
    assert_eq!(
        UploadDescriptor::parse("a_b_1X2X3.zip", &None),
        descriptor("a_b_1X2X3.zip", "", "", false)
    );
    assert_eq!(UploadDescriptor::parse("a_b_X.zip", &None), descriptor("a_b_X.zip", "", "", false));
    assert_eq!(
        UploadDescriptor::parse("a_b_12X.zip", &None),
        descriptor("a_b_12X.zip", "12", "", false)
    );
}

#[test]
fn name_without_suffix_is_split_as_it_is() {
    assert_eq!(
        UploadDescriptor::parse("a_b_3X4", &Some("n".to_string())),
        descriptor("n_b", "3", "4", false)
    );
    assert_eq!(
        UploadDescriptor::parse("a_b_3X4.tar", &Some("n".to_string())),
        descriptor("n_b", "3", "4.tar", false)
    );
}

#[test]
fn short_display_name_has_no_size() {
    assert_eq!(UploadDescriptor::parse("aX", &None), descriptor("aX", "", "", true));
    assert_eq!(UploadDescriptor::parse("aXb", &None), descriptor("aXb", "a", "b", true));
    assert_eq!(
        UploadDescriptor::parse("x__1X2.zip", &Some(String::new())),
        descriptor("_", "", "", false)
    );
}

#[test]
fn display_name_length_counts_bytes() {
    assert_eq!(UploadDescriptor::parse("图", &None), descriptor("图", "", "", true));
    assert_eq!(UploadDescriptor::parse("X", &None), descriptor("X", "", "", true));
    assert_eq!(UploadDescriptor::parse("éX", &None), descriptor("éX", "é", "", true));
}

#[test]
fn code_200_is_success() {
    let body = ResBody::new("200".to_string(), "ok".to_string());
    assert_eq!(body.verdict("n"), Ok(()));
}

#[test]
fn other_codes_are_failures_with_the_answer() {
    let body = ResBody::new("500".to_string(), "boom".to_string());
    assert_eq!(
        body.verdict("NewName_GG42"),
        Err(Fault::Rejected {
            name: "NewName_GG42".to_string(),
            code: "500".to_string(),
            data: "boom".to_string()
        })
    );
    assert!(ResBody::new("0200".to_string(), String::new()).verdict("n").is_err());
    assert!(ResBody::new("200 ".to_string(), String::new()).verdict("n").is_err());
    assert!(ResBody::new(String::new(), String::new()).verdict("n").is_err());
}

#[test]
fn upload_gives_what_is_to_be_sent() {
    let http = Http::new(Some("http://h/"), "tok");
    assert_eq!(
        http.upload("A002_GG42_1100X600.zip", &Some("NewName".to_string())),
        UploadRequest {
            url: "http://h/admin/Apitemplategrapic/add".to_string(),
            token: "tok".to_string(),
            descriptor: descriptor("NewName_GG42", "1100", "600", false),
        }
    );
    assert_eq!(http.upload("plain.zip", &None).descriptor, descriptor("plain.zip", "", "", true));
}

#[test]
fn upload_url_is_under_the_base_url() {
    let http = Http::new(Some("https://example.org/"), "secret");
    assert_eq!(http.get_upload_url(), "https://example.org/admin/Apitemplategrapic/add");
    assert_eq!(http.get_token(), "secret");
    let http = Http::new(None, "t");
    assert_eq!(http.get_upload_url(), format!("{}admin/Apitemplategrapic/add", BASE_URL));
    assert_eq!(http.get_upload_url(), "http://183.162.254.169:8086/admin/Apitemplategrapic/add");
}
