//! The per-user LaunchAgent property list that runs a tick every five
//! minutes.

use vstd::prelude::*;
use vstd::string::*;

use crate::text::{
    absolute, holds_text, is_absolute, join, joined, lemma_replaced_keeps, replace, replaced, trim,
    trim_spec,
};

verus! {

/// The property list with its three placeholders.
pub open spec fn template_text() -> Seq<char> {
    "<?xml version=\"1.0\" encoding=\"UTF-8\"?>\n<!DOCTYPE plist PUBLIC \"-//Apple//DTD PLIST 1.0//EN\" \"http://www.apple.com/DTDs/PropertyList-1.0.dtd\">\n<plist version=\"1.0\">\n  <dict>\n    <key>Label</key>\n    <string>{{BUNDLE_ID}}</string>\n\n    <key>ProgramArguments</key>\n    <array>\n      <string>{{BINARY_PATH}}</string>\n      <string>tick</string>\n    </array>\n\n    <key>StartInterval</key>\n    <integer>300</integer>\n\n    <key>RunAtLoad</key>\n    <true/>\n\n    <key>StandardOutPath</key>\n    <string>{{STATE_LOG_DIR}}/out.log</string>\n\n    <key>StandardErrorPath</key>\n    <string>{{STATE_LOG_DIR}}/err.log</string>\n  </dict>\n</plist>\n"@
}

fn template() -> (r: &'static str)
    ensures
        r@ == template_text(),
{
    "<?xml version=\"1.0\" encoding=\"UTF-8\"?>\n<!DOCTYPE plist PUBLIC \"-//Apple//DTD PLIST 1.0//EN\" \"http://www.apple.com/DTDs/PropertyList-1.0.dtd\">\n<plist version=\"1.0\">\n  <dict>\n    <key>Label</key>\n    <string>{{BUNDLE_ID}}</string>\n\n    <key>ProgramArguments</key>\n    <array>\n      <string>{{BINARY_PATH}}</string>\n      <string>tick</string>\n    </array>\n\n    <key>StartInterval</key>\n    <integer>300</integer>\n\n    <key>RunAtLoad</key>\n    <true/>\n\n    <key>StandardOutPath</key>\n    <string>{{STATE_LOG_DIR}}/out.log</string>\n\n    <key>StandardErrorPath</key>\n    <string>{{STATE_LOG_DIR}}/err.log</string>\n  </dict>\n</plist>\n"
}

/// Why the property list could not be rendered or placed.
#[derive(Debug)]
pub enum PlistError {
    RelativeBinary(String),
    RelativeLogDir(String),
    UserNotSet,
    UserEmpty,
    HomeNotAbsolute,
}

impl PlistError {
    /// The message shown for the error.
    pub open spec fn text(&self) -> Seq<char> {
        match self {
            PlistError::RelativeBinary(p) => "binary path must be absolute: "@ + p@,
            PlistError::RelativeLogDir(p) => "log directory must be absolute: "@ + p@,
            PlistError::UserNotSet => "USER must be set to render the LaunchAgent label"@,
            PlistError::UserEmpty => "USER must not be empty to render the LaunchAgent label"@,
            PlistError::HomeNotAbsolute => "HOME must be set to an absolute path"@,
        }
    }

    pub fn message(&self) -> (r: String)
        ensures
            r@ == self.text(),
    {
        match self {
            PlistError::RelativeBinary(p) => {
                let mut r = String::from_str("binary path must be absolute: ");
                r.append(p.as_str());
                r
            },
            PlistError::RelativeLogDir(p) => {
                let mut r = String::from_str("log directory must be absolute: ");
                r.append(p.as_str());
                r
            },
            PlistError::UserNotSet => String::from_str("USER must be set to render the LaunchAgent label"),
            PlistError::UserEmpty => String::from_str(
                "USER must not be empty to render the LaunchAgent label",
            ),
            PlistError::HomeNotAbsolute => String::from_str("HOME must be set to an absolute path"),
        }
    }
}

/// `value` with the five XML special characters escaped, `&` first.
pub open spec fn xml_escaped(value: Seq<char>) -> Seq<char> {
    replaced(
        replaced(
            replaced(replaced(replaced(value, "&"@, "&amp;"@), "<"@, "&lt;"@), ">"@, "&gt;"@),
            "\""@,
            "&quot;"@,
        ),
        "'"@,
        "&apos;"@,
    )
}

/// Escapes text for an XML element.
pub fn xml_escape(value: &str) -> (r: String)
    ensures
        r@ == xml_escaped(value@),
{
    proof {
        reveal_strlit("&");
        reveal_strlit("<");
        reveal_strlit(">");
        reveal_strlit("\"");
        reveal_strlit("'");
    }
    let a = replace(value, "&", "&amp;");
    let b = replace(a.as_str(), "<", "&lt;");
    let c = replace(b.as_str(), ">", "&gt;");
    let d = replace(c.as_str(), "\"", "&quot;");
    replace(d.as_str(), "'", "&apos;")
}

/// The LaunchAgent label for a user name: `com.USER.poke` with the name
/// trimmed.
pub open spec fn bundle_id_text(user: Seq<char>) -> Seq<char> {
    "com."@ + trim_spec(user) + ".poke"@
}

/// The label from the value of `USER`, which must be set and not blank.
pub fn default_bundle_id(user: Option<&str>) -> (r: Result<String, PlistError>)
    ensures
        match user {
            Some(u) => if trim_spec(u@).len() == 0 {
                r matches Err(e) && e is UserEmpty
            } else {
                r matches Ok(s) && s@ == bundle_id_text(u@)
            },
            None => r matches Err(e) && e is UserNotSet,
        },
{
    let user = match user {
        Some(u) => u,
        None => return Err(PlistError::UserNotSet),
    };
    let trimmed = trim(user);
    if trimmed.is_empty() {
        return Err(PlistError::UserEmpty);
    }
    proof {
        reveal_strlit("com.");
    }
    let mut id = String::from_str("com.");
    id.append(trimmed);
    id.append(".poke");
    Ok(id)
}

/// The schedule line of the property list: launchd starts a tick every
/// 300 seconds.
pub open spec fn every_five_minutes() -> Seq<char> {
    "<key>StartInterval</key>\n    <integer>300</integer>"@
}

/// Whatever the label, binary path and log directory put in place of the
/// placeholders, the rendered property list asks launchd to start a tick
/// every 300 seconds.
pub proof fn lemma_plist_runs_every_five_minutes(
    bundle_id: Seq<char>,
    binary_path: Seq<char>,
    log_dir: Seq<char>,
)
    ensures
        holds_text(
            replaced(
                replaced(replaced(template_text(), "{{BUNDLE_ID}}"@, bundle_id), "{{BINARY_PATH}}"@, binary_path),
                "{{STATE_LOG_DIR}}"@,
                log_dir,
            ),
            every_five_minutes(),
        ),
{
    reveal_strlit("<?xml version=\"1.0\" encoding=\"UTF-8\"?>\n<!DOCTYPE plist PUBLIC \"-//Apple//DTD PLIST 1.0//EN\" \"http://www.apple.com/DTDs/PropertyList-1.0.dtd\">\n<plist version=\"1.0\">\n  <dict>\n    <key>Label</key>\n    <string>{{BUNDLE_ID}}</string>\n\n    <key>ProgramArguments</key>\n    <array>\n      <string>{{BINARY_PATH}}</string>\n      <string>tick</string>\n    </array>\n\n    <key>StartInterval</key>\n    <integer>300</integer>\n\n    <key>RunAtLoad</key>\n    <true/>\n\n    <key>StandardOutPath</key>\n    <string>{{STATE_LOG_DIR}}/out.log</string>\n\n    <key>StandardErrorPath</key>\n    <string>{{STATE_LOG_DIR}}/err.log</string>\n  </dict>\n</plist>\n");
    reveal_strlit("<?xml version=\"1.0\" encoding=\"UTF-8\"?>\n<!DOCTYPE plist PUBLIC \"-//Apple//DTD PLIST 1.0//EN\" \"http://www.apple.com/DTDs/PropertyList-1.0.dtd\">\n<plist version=\"1.0\">\n  <dict>\n    <key>Label</key>\n    <string>{{BUNDLE_ID}}</string>\n\n    <key>ProgramArguments</key>\n    <array>\n      <string>{{BINARY_PATH}}</string>\n      <string>tick</string>\n    </array>\n\n    ");
    reveal_strlit("<key>StartInterval</key>\n    <integer>300</integer>");
    reveal_strlit("\n\n    <key>RunAtLoad</key>\n    <true/>\n\n    <key>StandardOutPath</key>\n    <string>{{STATE_LOG_DIR}}/out.log</string>\n\n    <key>StandardErrorPath</key>\n    <string>{{STATE_LOG_DIR}}/err.log</string>\n  </dict>\n</plist>\n");
    reveal_strlit("{{BUNDLE_ID}}");
    reveal_strlit("{{BINARY_PATH}}");
    reveal_strlit("{{STATE_LOG_DIR}}");
    let p = "<?xml version=\"1.0\" encoding=\"UTF-8\"?>\n<!DOCTYPE plist PUBLIC \"-//Apple//DTD PLIST 1.0//EN\" \"http://www.apple.com/DTDs/PropertyList-1.0.dtd\">\n<plist version=\"1.0\">\n  <dict>\n    <key>Label</key>\n    <string>{{BUNDLE_ID}}</string>\n\n    <key>ProgramArguments</key>\n    <array>\n      <string>{{BINARY_PATH}}</string>\n      <string>tick</string>\n    </array>\n\n    "@;
    let w = every_five_minutes();
    let q = "\n\n    <key>RunAtLoad</key>\n    <true/>\n\n    <key>StandardOutPath</key>\n    <string>{{STATE_LOG_DIR}}/out.log</string>\n\n    <key>StandardErrorPath</key>\n    <string>{{STATE_LOG_DIR}}/err.log</string>\n  </dict>\n</plist>\n"@;
    assert(template_text() =~= p + w + q);
    let f1 = "{{BUNDLE_ID}}"@;
    let f2 = "{{BINARY_PATH}}"@;
    let f3 = "{{STATE_LOG_DIR}}"@;
    assert(forall|j: int| 0 <= j < w.len() ==> w[j] != '{');
    assert(forall|j: int| 0 <= j < f1.len() ==> f1[j] != '<' && f1[j] != '\n');
    assert(forall|j: int| 0 <= j < f2.len() ==> f2[j] != '<' && f2[j] != '\n');
    assert(forall|j: int| 0 <= j < f3.len() ==> f3[j] != '<' && f3[j] != '\n');
    lemma_replaced_keeps(p, w, q, f1, bundle_id);
    let x1 = replaced(p, f1, bundle_id);
    let y1 = replaced(q, f1, bundle_id);
    lemma_replaced_keeps(x1, w, y1, f2, binary_path);
    let x2 = replaced(x1, f2, binary_path);
    let y2 = replaced(y1, f2, binary_path);
    lemma_replaced_keeps(x2, w, y2, f3, log_dir);
    let x3 = replaced(x2, f3, log_dir);
    let y3 = replaced(y2, f3, log_dir);
    let all = x3 + w + y3;
    assert(all.subrange(x3.len() as int, (x3.len() + w.len()) as int) =~= w);
}

/// The property list for a binary and a log directory, both absolute.
pub fn render_plist(binary_path: &str, log_dir: &str, user: Option<&str>) -> (r: Result<
    String,
    PlistError,
>)
    ensures
        !absolute(binary_path@) ==> (r matches Err(PlistError::RelativeBinary(p)) && p@ == binary_path@),
        absolute(binary_path@) && !absolute(log_dir@) ==> (r matches Err(PlistError::RelativeLogDir(p))
            && p@ == log_dir@),
        absolute(binary_path@) && absolute(log_dir@) ==> match user {
            Some(u) => if trim_spec(u@).len() == 0 {
                r matches Err(e) && e is UserEmpty
            } else {
                r matches Ok(s) && s@ == replaced(
                    replaced(
                        replaced(
                            template_text(),
                            "{{BUNDLE_ID}}"@,
                            xml_escaped(bundle_id_text(u@)),
                        ),
                        "{{BINARY_PATH}}"@,
                        xml_escaped(binary_path@),
                    ),
                    "{{STATE_LOG_DIR}}"@,
                    xml_escaped(log_dir@),
                )
            },
            None => r matches Err(e) && e is UserNotSet,
        },
        r matches Ok(s) ==> holds_text(s@, every_five_minutes()),
{
    if !is_absolute(binary_path) {
        return Err(PlistError::RelativeBinary(String::from_str(binary_path)));
    }
    if !is_absolute(log_dir) {
        return Err(PlistError::RelativeLogDir(String::from_str(log_dir)));
    }
    let bundle_id = match default_bundle_id(user) {
        Ok(id) => id,
        Err(e) => return Err(e),
    };
    proof {
        reveal_strlit("{{BUNDLE_ID}}");
        reveal_strlit("{{BINARY_PATH}}");
        reveal_strlit("{{STATE_LOG_DIR}}");
    }
    let escaped_id = xml_escape(bundle_id.as_str());
    let escaped_binary = xml_escape(binary_path);
    let escaped_log = xml_escape(log_dir);
    let a = replace(template(), "{{BUNDLE_ID}}", escaped_id.as_str());
    let b = replace(a.as_str(), "{{BINARY_PATH}}", escaped_binary.as_str());
    proof {
        lemma_plist_runs_every_five_minutes(escaped_id@, escaped_binary@, escaped_log@);
    }
    Ok(replace(b.as_str(), "{{STATE_LOG_DIR}}", escaped_log.as_str()))
}

/// Where the property list is installed:
/// `HOME/Library/LaunchAgents/LABEL.plist`.
pub fn plist_path(home: Option<&str>, user: Option<&str>) -> (r: Result<String, PlistError>)
    ensures
        match home {
            Some(h) => if !absolute(h@) {
                r matches Err(e) && e is HomeNotAbsolute
            } else {
                match user {
                    Some(u) => if trim_spec(u@).len() == 0 {
                        r matches Err(e) && e is UserEmpty
                    } else {
                        r matches Ok(s) && s@ == joined(
                            joined(joined(h@, "Library"@), "LaunchAgents"@),
                            bundle_id_text(u@) + ".plist"@,
                        )
                    },
                    None => r matches Err(e) && e is UserNotSet,
                }
            },
            None => r matches Err(e) && e is HomeNotAbsolute,
        },
{
    let home = match home {
        Some(h) => h,
        None => return Err(PlistError::HomeNotAbsolute),
    };
    if !is_absolute(home) {
        return Err(PlistError::HomeNotAbsolute);
    }
    let bundle_id = match default_bundle_id(user) {
        Ok(id) => id,
        Err(e) => return Err(e),
    };
    proof {
        reveal_strlit("Library");
        reveal_strlit("LaunchAgents");
        reveal_strlit(".plist");
    }
    let library = join(home, "Library");
    let agents = join(library.as_str(), "LaunchAgents");
    let mut file_name = bundle_id;
    file_name.append(".plist");
    proof {
        reveal_strlit("com.");
        assert(file_name@[0] == 'c');
    }
    Ok(join(agents.as_str(), file_name.as_str()))
}

} // verus!
