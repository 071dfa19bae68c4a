use webcortex::files::{weak_etag, Directory, FileServer, FoundFile, Target};
use webcortex::http::PylonResponse;
use webcortex::percent::is_clean;

/// A directory in memory: canonical paths, and what a file holds.
struct Fixture {
    server: FileServer,
}

const FILES: [(&str, &str); 5] = [
    ("/srv/index.html", "<h1>home</h1>"),
    ("/srv/app.js", "console.log(1)"),
    ("/srv/.env", "SECRET=1"),
    ("/srv/sub/deep.txt", "deep"),
    ("/etc/passwd", "root"),
];

impl Fixture {
    fn new() -> Self {
        let found = Directory::Canonical(b"/srv".to_vec());
        Fixture { server: FileServer::new("/srv", found, Some("index.html".into()), 3600).expect("file server") }
    }

    fn read(&self, path: &str) -> Option<FoundFile> {
        // `/srv/out` holds an index that is a link to a file elsewhere.
        let canonical = if path == "/srv/out/index.html" { "/etc/passwd" } else { path };
        if !self.server.contains(canonical.as_bytes()) {
            return None;
        }
        FILES.iter().find(|(p, _)| *p == canonical).map(|(p, b)| FoundFile {
            canonical: canonical.as_bytes().to_vec(),
            path: p.rsplit('/').next().unwrap().to_string(),
            bytes: b.as_bytes().to_vec(),
        })
    }

    fn find(&self, relative: &str) -> Option<FoundFile> {
        if !is_clean(relative) {
            return None;
        }
        let mut path = String::from("/srv");
        for part in self.server.resolve(relative)? {
            path.push('/');
            path.push_str(&part);
        }
        let is_dir = path == "/srv" || path == "/srv/sub" || path == "/srv/out";
        match self.server.pick(path.as_bytes(), is_dir)? {
            Target::Itself => self.read(&path),
            Target::Index(name) => self.read(&format!("{path}/{name}")),
        }
    }

    fn serve(&self, relative: &str, if_none_match: Option<&str>) -> PylonResponse {
        self.server.serve(self.find(relative), if_none_match)
    }
}

#[test]
fn serves_a_file_with_a_guessed_mime_type() {
    let f = Fixture::new();
    let res = f.serve("/app.js", None);
    assert_eq!(res.status, 200);
    let ct = res.headers.iter().find(|(k, _)| k == "content-type").unwrap();
    assert!(ct.1.contains("javascript"), "got {}", ct.1);
}

#[test]
fn serves_the_index_for_a_directory() {
    let f = Fixture::new();
    let res = f.serve("/", None);
    assert_eq!(res.status, 200);
    assert!(String::from_utf8_lossy(&res.body).contains("home"));
}

#[test]
fn nested_paths_work() {
    let f = Fixture::new();
    assert_eq!(f.serve("/sub/deep.txt", None).status, 200);
}

#[test]
fn traversal_is_refused_in_every_encoding() {
    let s = Fixture::new();
    for attack in [
        "/../../etc/passwd",
        "/..%2f..%2fetc/passwd",
        "/%2e%2e/%2e%2e/etc/passwd",
        "/sub/../../etc/passwd",
        "/....//etc/passwd",
    ] {
        assert_eq!(s.serve(attack, None).status, 404, "leaked via {attack}");
    }
}

#[test]
fn dotfiles_are_never_served() {
    let f = Fixture::new();
    assert_eq!(f.serve("/.env", None).status, 404);
}

#[test]
fn etag_enables_a_304() {
    let s = Fixture::new();
    let first = s.serve("/app.js", None);
    let etag = first.headers.iter().find(|(k, _)| k == "etag").unwrap().1.clone();
    let second = s.serve("/app.js", Some(&etag));
    assert_eq!(second.status, 304);
    assert!(second.body.is_empty());
}

#[test]
fn missing_file_is_404() {
    let f = Fixture::new();
    assert_eq!(f.serve("/nope.txt", None).status, 404);
}

#[test]
fn what_leads_out_of_the_root_is_not_picked() {
    let f = Fixture::new();
    assert!(f.server.pick(b"/srvx/app.js", false).is_none());
    assert!(f.server.pick(b"/etc/passwd", false).is_none());
    assert!(matches!(f.server.pick(b"/srv/app.js", false), Some(Target::Itself)));
    assert!(matches!(f.server.pick(b"/srv/sub", true), Some(Target::Index(n)) if n == "index.html"));
}

#[test]
fn an_index_that_leads_out_of_the_root_is_not_served() {
    let f = Fixture::new();
    assert!(matches!(f.server.pick(b"/srv/out", true), Some(Target::Index(_))));
    assert!(!f.server.contains(b"/etc/passwd"));
    assert_eq!(f.serve("/out", None).status, 404);
    let read = |canonical: &str| FoundFile {
        canonical: canonical.as_bytes().to_vec(),
        path: "index.html".into(),
        bytes: b"root".to_vec(),
    };
    assert_eq!(f.server.serve(Some(read("/etc/passwd")), None).status, 404);
    assert_eq!(f.server.serve(Some(read("/srv/sub/home.html")), None).status, 200);
}

#[test]
fn an_etag_is_weak_and_follows_the_bytes() {
    assert!(weak_etag(b"a").starts_with("W/\""));
    assert_ne!(weak_etag(b"a"), weak_etag(b"b"));
    assert_eq!(weak_etag(b"same"), weak_etag(b"same"));
}

#[test]
fn a_directory_must_be_there() {
    assert!(FileServer::new("x", Directory::Unusable("gone".into()), None, 1).unwrap_err().contains("gone"));
    assert!(FileServer::new("x", Directory::NotADirectory, None, 1).is_err());
}
