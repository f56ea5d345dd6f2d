//! What an editor highlights.

use crate::json::{
    json_text, law_members_are_found_by_key, list_models, push_entry, push_value, Json, JsonModel,
};
use crate::numeral::{decimal, decimal_text};
use crate::text::same_text;
use vstd::prelude::*;
use vstd::string::*;

verus! {

/// Why something is highlighted.
#[derive(Debug, Clone, Copy, PartialEq, Eq, Structural)]
pub enum HighlightType {
    Focus,
    Scope,
    Modified,
    Referenced,
    Error,
    Warning,
}

impl HighlightType {
    /// The style class of a highlight.
    pub open spec fn class(self) -> Seq<char> {
        match self {
            HighlightType::Focus => "caduceus-focus"@,
            HighlightType::Scope => "caduceus-scope"@,
            HighlightType::Modified => "caduceus-modified"@,
            HighlightType::Referenced => "caduceus-referenced"@,
            HighlightType::Error => "caduceus-error"@,
            HighlightType::Warning => "caduceus-warning"@,
        }
    }

    fn class_name(&self) -> (r: &'static str)
        ensures
            r@ == self.class(),
    {
        match self {
            HighlightType::Focus => "caduceus-focus",
            HighlightType::Scope => "caduceus-scope",
            HighlightType::Modified => "caduceus-modified",
            HighlightType::Referenced => "caduceus-referenced",
            HighlightType::Error => "caduceus-error",
            HighlightType::Warning => "caduceus-warning",
        }
    }
}

/// A place in a file that is highlighted.
#[derive(Debug)]
pub struct AstHighlight {
    pub file: String,
    pub start_line: usize,
    pub end_line: usize,
    pub start_col: usize,
    pub end_col: usize,
    pub highlight_type: HighlightType,
    pub label: String,
    pub tooltip: String,
}

impl Clone for AstHighlight {
    fn clone(&self) -> (r: AstHighlight)
        ensures
            r == *self,
    {
        AstHighlight {
            file: self.file.clone(),
            start_line: self.start_line,
            end_line: self.end_line,
            start_col: self.start_col,
            end_col: self.end_col,
            highlight_type: self.highlight_type,
            label: self.label.clone(),
            tooltip: self.tooltip.clone(),
        }
    }
}

/// The highlights of a file, or those of the others.
pub open spec fn of_file(v: Seq<AstHighlight>, file: Seq<char>, same: bool) -> Seq<AstHighlight>
    decreases v.len(),
{
    if v.len() == 0 {
        Seq::empty()
    } else if (v.last().file@ == file) == same {
        of_file(v.drop_last(), file, same).push(v.last())
    } else {
        of_file(v.drop_last(), file, same)
    }
}

/// Once the highlights of a file are cleared it has none, and other files keep
/// theirs.
pub proof fn law_clearing_is_by_file(v: Seq<AstHighlight>, file: Seq<char>, other: Seq<char>)
    ensures
        of_file(of_file(v, file, false), file, true).len() == 0,
        other != file ==> of_file(of_file(v, file, false), other, true) == of_file(v, other, true),
    decreases v.len(),
{
    if v.len() > 0 {
        let rest = v.drop_last();
        law_clearing_is_by_file(rest, file, other);
        let kept = of_file(rest, file, false);
        assert(kept.push(v.last()).drop_last() =~= kept);
    }
}

/// The highlights.
pub open spec fn highlights(v: Seq<&AstHighlight>) -> Seq<AstHighlight> {
    v.map_values(|h: &AstHighlight| *h)
}

/// A number.
pub open spec fn number_json(n: usize) -> JsonModel {
    JsonModel::Number(decimal(n as nat))
}

/// A text that is shown on its own.
pub open spec fn value_json(s: Seq<char>) -> JsonModel {
    JsonModel::Object(seq![("value"@, JsonModel::Text(s))])
}

/// A highlight as an editor takes it.
pub open spec fn decoration(h: AstHighlight) -> JsonModel {
    JsonModel::Object(
        seq![
            (
                "options"@,
                JsonModel::Object(
                    seq![
                        ("className"@, JsonModel::Text(h.highlight_type.class())),
                        ("glyphMarginHoverMessage"@, value_json(h.label@)),
                        ("hoverMessage"@, value_json(h.tooltip@)),
                    ],
                ),
            ),
            (
                "range"@,
                JsonModel::Object(
                    seq![
                        ("endColumn"@, number_json(h.end_col)),
                        ("endLineNumber"@, number_json(h.end_line)),
                        ("startColumn"@, number_json(h.start_col)),
                        ("startLineNumber"@, number_json(h.start_line)),
                    ],
                ),
            ),
        ],
    )
}

fn write_number(n: usize) -> (r: Json)
    ensures
        r@ == number_json(n),
{
    Json::Number(decimal_text(n as u64))
}

fn write_value(s: &str) -> (r: Json)
    ensures
        r@ == value_json(s@),
{
    let mut v: Vec<(String, Json)> = Vec::new();
    push_entry(&mut v, "value", json_text(s));
    let r = Json::Object(v);
    assert(r@->Object_0 =~= value_json(s@)->Object_0);
    r
}

fn write_decoration(h: &AstHighlight) -> (r: Json)
    ensures
        r@ == decoration(*h),
{
    let mut options: Vec<(String, Json)> = Vec::new();
    push_entry(&mut options, "className", json_text(h.highlight_type.class_name()));
    push_entry(&mut options, "glyphMarginHoverMessage", write_value(h.label.as_str()));
    push_entry(&mut options, "hoverMessage", write_value(h.tooltip.as_str()));
    let mut range: Vec<(String, Json)> = Vec::new();
    push_entry(&mut range, "endColumn", write_number(h.end_col));
    push_entry(&mut range, "endLineNumber", write_number(h.end_line));
    push_entry(&mut range, "startColumn", write_number(h.start_col));
    push_entry(&mut range, "startLineNumber", write_number(h.start_line));
    let mut v: Vec<(String, Json)> = Vec::new();
    push_entry(&mut v, "options", Json::Object(options));
    push_entry(&mut v, "range", Json::Object(range));
    let r = Json::Object(v);
    proof {
        let d = decoration(*h)->Object_0;
        assert(r@->Object_0[0].1->Object_0 =~= d[0].1->Object_0);
        assert(r@->Object_0[1].1->Object_0 =~= d[1].1->Object_0);
        assert(r@->Object_0 =~= d);
    }
    r
}

/// What is highlighted, in all files.
#[derive(Debug)]
pub struct AstOverlay {
    pub highlights: Vec<AstHighlight>,
}

impl AstOverlay {
    /// Nothing is highlighted.
    pub fn new() -> (r: AstOverlay)
        ensures
            r.highlights@.len() == 0,
    {
        AstOverlay { highlights: Vec::new() }
    }

    /// Highlights something more.
    pub fn add_highlight(&mut self, highlight: AstHighlight)
        ensures
            final(self).highlights@ == old(self).highlights@.push(highlight),
    {
        self.highlights.push(highlight);
    }

    /// What is highlighted in a file.
    pub fn highlights_for_file(&self, file: &str) -> (r: Vec<&AstHighlight>)
        ensures
            highlights(r@) == of_file(self.highlights@, file@, true),
    {
        let ghost all = self.highlights@;
        let mut out: Vec<&AstHighlight> = Vec::new();
        let mut i: usize = 0;
        assert(highlights(out@) =~= of_file(all.take(0), file@, true));
        while i < self.highlights.len()
            invariant
                i <= self.highlights@.len(),
                all == self.highlights@,
                highlights(out@) == of_file(all.take(i as int), file@, true),
            decreases self.highlights@.len() - i,
        {
            let ghost before = highlights(out@);
            proof {
                assert(all.take(i + 1).drop_last() =~= all.take(i as int));
                assert(all.take(i + 1).last() == all[i as int]);
            }
            if same_text(self.highlights[i].file.as_str(), file) {
                out.push(&self.highlights[i]);
                assert(highlights(out@) =~= before.push(all[i as int]));
            }
            i += 1;
        }
        assert(all.take(i as int) =~= all);
        out
    }

    /// Highlights nothing in a file any more.
    pub fn clear_file(&mut self, file: &str)
        ensures
            final(self).highlights@ == of_file(old(self).highlights@, file@, false),
    {
        let ghost all = self.highlights@;
        let mut kept: Vec<AstHighlight> = Vec::new();
        let mut i: usize = 0;
        assert(kept@ =~= of_file(all.take(0), file@, false));
        while i < self.highlights.len()
            invariant
                i <= self.highlights@.len(),
                all == self.highlights@,
                all == old(self).highlights@,
                kept@ == of_file(all.take(i as int), file@, false),
            decreases self.highlights@.len() - i,
        {
            proof {
                assert(all.take(i + 1).drop_last() =~= all.take(i as int));
                assert(all.take(i + 1).last() == all[i as int]);
            }
            if !same_text(self.highlights[i].file.as_str(), file) {
                kept.push(self.highlights[i].clone());
            }
            i += 1;
        }
        assert(all.take(i as int) =~= all);
        self.highlights = kept;
    }

    /// What is highlighted in a file, as an editor takes it.
    pub fn to_editor_decorations(&self, file: &str) -> (r: Json)
        ensures
            r@ == JsonModel::Object(
                seq![
                    (
                        "decorations"@,
                        JsonModel::List(
                            of_file(self.highlights@, file@, true).map_values(
                                |h: AstHighlight| decoration(h),
                            ),
                        ),
                    ),
                ],
            ),
    {
        let shown = self.highlights_for_file(file);
        let ghost all = of_file(self.highlights@, file@, true);
        let ghost goal = all.map_values(|h: AstHighlight| decoration(h));
        let mut list: Vec<Json> = Vec::new();
        let mut i: usize = 0;
        assert(list_models(list@, list@.len()) =~= goal.take(0));
        while i < shown.len()
            invariant
                i <= shown@.len() == all.len(),
                all == highlights(shown@),
                goal == all.map_values(|h: AstHighlight| decoration(h)),
                list_models(list@, list@.len()) == goal.take(i as int),
            decreases shown@.len() - i,
        {
            push_value(&mut list, write_decoration(shown[i]));
            proof {
                assert(all[i as int] == *shown@[i as int]);
                assert(goal.take(i + 1) =~= goal.take(i as int).push(goal[i as int]));
            }
            i += 1;
        }
        assert(goal.take(i as int) =~= goal);
        let mut v: Vec<(String, Json)> = Vec::new();
        push_entry(&mut v, "decorations", Json::List(list));
        let r = Json::Object(v);
        assert(r@->Object_0 =~= seq![("decorations"@, JsonModel::List(goal))]);
        r
    }
}

impl Default for AstOverlay {
    fn default() -> (r: AstOverlay)
        ensures
            r.highlights@.len() == 0,
    {
        AstOverlay::new()
    }
}

/// The highlights of a file are those that name it, in the order in which they were made.
pub proof fn law_highlights_are_found_by_file(v: Seq<AstHighlight>, file: Seq<char>)
    ensures
        of_file(v, file, true) == v.filter(|h: AstHighlight| h.file@ == file),
        of_file(v, file, false) == v.filter(|h: AstHighlight| h.file@ != file),
    decreases v.len(),
{
    reveal(Seq::filter);
    if v.len() > 0 {
        law_highlights_are_found_by_file(v.drop_last(), file);
    }
}

/// An editor is told the place, the label and the words of a highlight, each under its own
/// name.
pub proof fn law_decorations_show_the_highlight(h: AstHighlight)
    ensures
        ({
            let d = decoration(h);
            let range = d.member("range"@)->0;
            let options = d.member("options"@)->0;
            &&& d.member("range"@) is Some
            &&& d.member("options"@) is Some
            &&& range.member("startLineNumber"@) == Some(number_json(h.start_line))
            &&& range.member("startColumn"@) == Some(number_json(h.start_col))
            &&& range.member("endLineNumber"@) == Some(number_json(h.end_line))
            &&& range.member("endColumn"@) == Some(number_json(h.end_col))
            &&& options.member("className"@) == Some(JsonModel::Text(h.highlight_type.class()))
            &&& options.member("hoverMessage"@) == Some(value_json(h.tooltip@))
            &&& options.member("glyphMarginHoverMessage"@) == Some(value_json(h.label@))
        }),
{
    reveal_strlit("options");
    reveal_strlit("range");
    reveal_strlit("endColumn");
    reveal_strlit("endLineNumber");
    reveal_strlit("startColumn");
    reveal_strlit("startLineNumber");
    reveal_strlit("className");
    reveal_strlit("glyphMarginHoverMessage");
    reveal_strlit("hoverMessage");
    assert("options"@.len() == 7 && "range"@.len() == 5);
    assert("endColumn"@.len() == 9 && "endLineNumber"@.len() == 13);
    assert("startColumn"@.len() == 11 && "startLineNumber"@.len() == 15);
    assert("className"@.len() == 9 && "glyphMarginHoverMessage"@.len() == 23);
    assert("hoverMessage"@.len() == 12);
    if let JsonModel::Object(v) = decoration(h) {
        law_members_are_found_by_key(v, "options"@, 0);
        law_members_are_found_by_key(v, "range"@, 1);
    }
    if let JsonModel::Object(v) = decoration(h).member("range"@)->0 {
        law_members_are_found_by_key(v, "endColumn"@, 0);
        law_members_are_found_by_key(v, "endLineNumber"@, 1);
        law_members_are_found_by_key(v, "startColumn"@, 2);
        law_members_are_found_by_key(v, "startLineNumber"@, 3);
    }
    if let JsonModel::Object(v) = decoration(h).member("options"@)->0 {
        law_members_are_found_by_key(v, "className"@, 0);
        law_members_are_found_by_key(v, "glyphMarginHoverMessage"@, 1);
        law_members_are_found_by_key(v, "hoverMessage"@, 2);
    }
}

} // verus!
