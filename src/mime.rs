use vstd::prelude::*;

use crate::lint::text_eq;

verus! {

/// The media type served for a file name extension.
pub open spec fn media_type(extension: Option<Seq<char>>) -> Seq<char> {
    match extension {
        None => "text/plain"@,
        Some(e) => if e == "gif"@ {
            "image/gif"@
        } else if e == "htm"@ || e == "html"@ {
            "text/html; charset=utf8"@
        } else if e == "jpeg"@ || e == "jpg"@ {
            "image/jpeg"@
        } else if e == "js"@ {
            "application/javascript"@
        } else if e == "pdf"@ {
            "application/pdf"@
        } else if e == "png"@ {
            "image/png"@
        } else if e == "wasm"@ {
            "application/wasm"@
        } else {
            "text/plain; charset=utf8"@
        },
    }
}

/// The content type under which a file with the given extension is served.
pub fn content_type(extension: Option<&str>) -> (r: &'static str)
    ensures
        r@ == media_type(match extension {
            Some(e) => Some(e@),
            None => None,
        }),
{
    proof {
        reveal_strlit("text/plain");
        reveal_strlit("gif");
        reveal_strlit("image/gif");
        reveal_strlit("htm");
        reveal_strlit("html");
        reveal_strlit("text/html; charset=utf8");
        reveal_strlit("jpeg");
        reveal_strlit("jpg");
        reveal_strlit("image/jpeg");
        reveal_strlit("js");
        reveal_strlit("application/javascript");
        reveal_strlit("pdf");
        reveal_strlit("application/pdf");
        reveal_strlit("png");
        reveal_strlit("image/png");
        reveal_strlit("txt");
        reveal_strlit("wasm");
        reveal_strlit("application/wasm");
        reveal_strlit("text/plain; charset=utf8");
    }
    let e = match extension {
        None => return "text/plain",
        Some(e) => e,
    };
    if text_eq(e, "gif") {
        "image/gif"
    } else if text_eq(e, "htm") || text_eq(e, "html") {
        "text/html; charset=utf8"
    } else if text_eq(e, "jpeg") || text_eq(e, "jpg") {
        "image/jpeg"
    } else if text_eq(e, "js") {
        "application/javascript"
    } else if text_eq(e, "pdf") {
        "application/pdf"
    } else if text_eq(e, "png") {
        "image/png"
    } else if text_eq(e, "wasm") {
        "application/wasm"
    } else {
        "text/plain; charset=utf8"
    }
}

} // verus!
