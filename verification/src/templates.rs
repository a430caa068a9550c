use vstd::prelude::*;

verus! {

use vstd::string::StringExecFns;

/// The text of an optional template addon; absent means empty.
pub open spec fn opt_text(o: Option<&str>) -> Seq<char> {
    match o {
        Some(s) => s@,
        None => Seq::empty(),
    }
}

/// The document built around a display-math expression: an auto-sized,
/// margin-free page at display size, the addon, then the expression between
/// spaced dollar delimiters.
pub open spec fn display_math_text(code: Seq<char>, addon: Seq<char>) -> Seq<char> {
    "\n#set page(height: auto, width: auto, margin: 0pt, fill: none)\n#set text(14pt)\n"@ + addon
        + "\n$ "@ + code + " $\n"@
}

/// The document built around an inline-math expression: a smaller text size,
/// the addon, a zero-width pin that measures the baseline position, the
/// expression in tight dollar delimiters, and a metadata label carrying the
/// measurement out of the compile.
pub open spec fn inline_math_text(code: Seq<char>, addon: Seq<char>) -> Seq<char> {
    "\n#set page(height: auto, width: auto, margin: 0pt, fill: none)\n#set text(13pt)\n"@ + addon
        + "\n#let s = state(\"t\", (:))\n\n#let pin(t) = context {\n    let computed = measure(\n        line(length: here().position().y)\n    )\n    s.update(it => it.insert(t, computed.width) + it)\n    }\n\n#show math.equation: it => {\n    box(it, inset: (top: 0.5em, bottom: 0.5em))\n    }\n$pin(\"l1\")"@
        + code + "$\n\n#context [\n    #metadata(s.final().at(\"l1\")) <label>\n]\n"@
}

/// The document built around raw typesetting source: page setup, the addon,
/// then the source unmodified.
pub open spec fn raw_text(code: Seq<char>, addon: Seq<char>) -> Seq<char> {
    "\n#set page(height: auto, width: auto, margin: 0pt, fill: none)\n#set text(16pt)\n"@ + addon
        + "\n"@ + code + "\n"@
}

pub fn display_math(code: &str, addon: Option<&str>) -> (r: String)
    ensures
        r@ == display_math_text(code@, opt_text(addon)),
{
    let a = match addon {
        Some(s) => s,
        None => "",
    };
    let mut out = String::new();
    out.append("\n#set page(height: auto, width: auto, margin: 0pt, fill: none)\n#set text(14pt)\n");
    out.append(a);
    out.append("\n$ ");
    out.append(code);
    out.append(" $\n");
    proof {
        reveal_strlit("");
        assert(out@ =~= display_math_text(code@, opt_text(addon)));
    }
    out
}

pub fn inline_math(code: &str, addon: Option<&str>) -> (r: String)
    ensures
        r@ == inline_math_text(code@, opt_text(addon)),
{
    let a = match addon {
        Some(s) => s,
        None => "",
    };
    let mut out = String::new();
    out.append("\n#set page(height: auto, width: auto, margin: 0pt, fill: none)\n#set text(13pt)\n");
    out.append(a);
    out.append("\n#let s = state(\"t\", (:))\n\n#let pin(t) = context {\n    let computed = measure(\n        line(length: here().position().y)\n    )\n    s.update(it => it.insert(t, computed.width) + it)\n    }\n\n#show math.equation: it => {\n    box(it, inset: (top: 0.5em, bottom: 0.5em))\n    }\n$pin(\"l1\")");
    out.append(code);
    out.append("$\n\n#context [\n    #metadata(s.final().at(\"l1\")) <label>\n]\n");
    proof {
        reveal_strlit("");
        assert(out@ =~= inline_math_text(code@, opt_text(addon)));
    }
    out
}

pub fn raw(code: &str, addon: Option<&str>) -> (r: String)
    ensures
        r@ == raw_text(code@, opt_text(addon)),
{
    let a = match addon {
        Some(s) => s,
        None => "",
    };
    let mut out = String::new();
    out.append("\n#set page(height: auto, width: auto, margin: 0pt, fill: none)\n#set text(16pt)\n");
    out.append(a);
    out.append("\n");
    out.append(code);
    out.append("\n");
    proof {
        reveal_strlit("");
        assert(out@ =~= raw_text(code@, opt_text(addon)));
    }
    out
}

} // verus!
