//! What the file dialogs offer: the file filters and the form in which a
//! web view host receives them.
use vstd::prelude::*;
use vstd::string::*;

verus! {

/// How a newly opened waveform file relates to the one shown.
#[derive(Debug, Clone, Copy, PartialEq, Eq, Structural)]
pub enum OpenMode {
    Open,
    Switch,
}

/// The extension of transaction stream files.
pub const TRANSACTIONS_FILE_EXTENSION: &'static str = "ftr";

/// What `format!("{:?}", s)` gives for the text `s`: the text quoted and
/// escaped as a Rust string literal.
pub uninterp spec fn debug_str(s: Seq<char>) -> Seq<char>;

/// Calls `<str as Debug>::fmt` through `format!("{:?}", ..)`. The result is
/// named by `debug_str` of the text; the escaping rules are not stated.
#[verifier::external_body]
fn debug_quoted(s: &str) -> (r: String)
    ensures
        r@ == debug_str(s@),
{
    format!("{:?}", s)
}

/// `items` with `sep` between each two of them.
pub open spec fn joined(items: Seq<Seq<char>>, sep: Seq<char>) -> Seq<char>
    decreases items.len(),
{
    if items.len() == 0 {
        Seq::empty()
    } else if items.len() == 1 {
        items[0]
    } else {
        joined(items.drop_last(), sep) + sep + items.last()
    }
}

/// The JSON array `[{"name":<name>,"extensions":[<ext>,...]}]` with each
/// text quoted as by `debug_str`.
pub open spec fn filters_json(name: Seq<char>, extensions: Seq<String>) -> Seq<char> {
    "[{\"name\":"@ + debug_str(name) + ",\"extensions\":["@ + joined(
        extensions.map_values(|e: String| debug_str(e@)),
        ","@,
    ) + "]}]"@
}

/// Serialises a `(name, extensions)` filter into the JSON array that a web
/// view host expects, for example
/// `[{"name":"Waveform files","extensions":["vcd","fst"]}]`.
pub fn filters_to_json(filter: &(String, Vec<String>)) -> (r: String)
    ensures
        r@ == filters_json(filter.0@, filter.1@),
{
    let ghost quoted = filter.1@.map_values(|e: String| debug_str(e@));
    let mut exts = String::new();
    let mut i: usize = 0;
    proof {
        reveal_strlit(",");
    }
    while i < filter.1.len()
        invariant
            i <= filter.1@.len(),
            quoted == filter.1@.map_values(|e: String| debug_str(e@)),
            exts@ == joined(quoted.take(i as int), ","@),
            ","@ =~= seq![','],
        decreases filter.1@.len() - i,
    {
        let q = debug_quoted(filter.1[i].as_str());
        proof {
            assert(quoted.take(i + 1).drop_last() =~= quoted.take(i as int));
            assert(quoted.take(i + 1).last() == q@);
        }
        if i > 0 {
            exts.append(",");
        }
        exts.append(q.as_str());
        i = i + 1;
    }
    proof {
        assert(quoted.take(i as int) =~= quoted);
    }
    let mut r = String::from_str("[{\"name\":");
    let name = debug_quoted(filter.0.as_str());
    r.append(name.as_str());
    r.append(",\"extensions\":[");
    r.append(exts.as_str());
    r.append("]}]");
    r
}

/// The filter of the dialog that opens a waveform file.
pub fn waveform_file_filter() -> (r: (String, Vec<String>))
    ensures
        r.0@ == "Waveform/Transaction-files (*.vcd, *.fst, *.ghw, *.ftr)"@,
        r.1@.map_values(|e: String| e@) == seq!["vcd"@, "fst"@, "ghw"@, TRANSACTIONS_FILE_EXTENSION@],
{
    let mut exts: Vec<String> = Vec::new();
    exts.push(String::from_str("vcd"));
    exts.push(String::from_str("fst"));
    exts.push(String::from_str("ghw"));
    exts.push(String::from_str(TRANSACTIONS_FILE_EXTENSION));
    let r = (String::from_str("Waveform/Transaction-files (*.vcd, *.fst, *.ghw, *.ftr)"), exts);
    assert(r.1@.map_values(|e: String| e@) =~= seq!["vcd"@, "fst"@, "ghw"@, TRANSACTIONS_FILE_EXTENSION@]);
    r
}

/// The filter of the dialog that opens a command file.
pub fn command_file_filter() -> (r: (String, Vec<String>))
    ensures
        r.0@ == "Command-file (*.sucl)"@,
        r.1@.map_values(|e: String| e@) == seq!["sucl"@],
{
    let mut exts: Vec<String> = Vec::new();
    exts.push(String::from_str("sucl"));
    let r = (String::from_str("Command-file (*.sucl)"), exts);
    assert(r.1@.map_values(|e: String| e@) =~= seq!["sucl"@]);
    r
}

/// The filter of the dialog that opens a Python translator file.
pub fn python_file_filter() -> (r: (String, Vec<String>))
    ensures
        r.0@ == "Python files (*.py)"@,
        r.1@.map_values(|e: String| e@) == seq!["py"@],
{
    let mut exts: Vec<String> = Vec::new();
    exts.push(String::from_str("py"));
    let r = (String::from_str("Python files (*.py)"), exts);
    assert(r.1@.map_values(|e: String| e@) =~= seq!["py"@]);
    r
}

} // verus!
