//! The task contract: the reviewable summary of a task spec.
use vstd::prelude::*;
use crate::text::{concat_map, item_lines, push_item_lines, views};

verus! {

/// What a task promises: intent, rules, decisions, boundaries and the
/// scenarios that decide completion.
#[derive(Debug, Clone)]
pub struct TaskContract {
    pub name: String,
    pub intent: String,
    pub must: Vec<String>,
    pub must_not: Vec<String>,
    pub decisions: Vec<String>,
    pub allowed_changes: Vec<String>,
    pub forbidden: Vec<String>,
    pub out_of_scope: Vec<String>,
    pub completion_criteria: Vec<String>,
}

/// A titled bullet list, left out when there are no items.
pub open spec fn bullet_section(title: Seq<char>, items: Seq<String>) -> Seq<char> {
    if items.len() == 0 {
        seq![]
    } else {
        title + item_lines(items, "- "@, "\n"@) + "\n"@
    }
}

/// The prompt text of a contract.
pub open spec fn contract_prompt(c: TaskContract) -> Seq<char> {
    "# Task Contract: "@ + c.name@ + "\n\n"@
    + "## Intent\n\n"@ + c.intent@ + "\n\n"@
    + bullet_section("## Must\n\n"@, c.must@)
    + bullet_section("## Must Not\n\n"@, c.must_not@)
    + bullet_section("## Decisions\n\n"@, c.decisions@)
    + "## Boundaries\n\n"@
    + bullet_section("### Allowed Changes\n\n"@, c.allowed_changes@)
    + bullet_section("### Forbidden\n\n"@, c.forbidden@)
    + bullet_section("## Out of Scope\n\n"@, c.out_of_scope@)
    + bullet_section("## Completion Criteria\n\n"@, c.completion_criteria@)
}

/// Appends a titled bullet list unless it is empty.
fn push_bullet_section(out: &mut String, title: &str, items: &Vec<String>)
    ensures
        final(out)@ == old(out)@ + bullet_section(title@, items@),
{
    if items.len() > 0 {
        out.append(title);
        push_item_lines(out, items, "- ", "\n");
        out.append("\n");
    }
}

impl TaskContract {
    /// Renders the contract as a self-contained Markdown prompt.
    pub fn to_prompt(&self) -> (s: String)
        ensures
            s@ == contract_prompt(*self),
    {
        let mut out = String::new();
        out.append("# Task Contract: ");
        out.append(self.name.as_str());
        out.append("\n\n");
        out.append("## Intent\n\n");
        out.append(self.intent.as_str());
        out.append("\n\n");
        push_bullet_section(&mut out, "## Must\n\n", &self.must);
        push_bullet_section(&mut out, "## Must Not\n\n", &self.must_not);
        push_bullet_section(&mut out, "## Decisions\n\n", &self.decisions);
        out.append("## Boundaries\n\n");
        push_bullet_section(&mut out, "### Allowed Changes\n\n", &self.allowed_changes);
        push_bullet_section(&mut out, "### Forbidden\n\n", &self.forbidden);
        push_bullet_section(&mut out, "## Out of Scope\n\n", &self.out_of_scope);
        push_bullet_section(&mut out, "## Completion Criteria\n\n", &self.completion_criteria);
        out
    }
}


/// The plain value of a contract.
pub open spec fn contract_view(c: TaskContract) -> (Seq<char>, Seq<char>, Seq<Seq<char>>, Seq<Seq<char>>, Seq<Seq<char>>, Seq<Seq<char>>, Seq<Seq<char>>, Seq<Seq<char>>, Seq<Seq<char>>) {
    (c.name@, c.intent@, views(c.must@), views(c.must_not@), views(c.decisions@), views(c.allowed_changes@), views(c.forbidden@), views(c.out_of_scope@), views(c.completion_criteria@))
}

/// Contracts with the same texts render the same prompt; in particular a
/// copy renders the prompt of its original.
pub proof fn law_same_texts_same_prompt(a: TaskContract, b: TaskContract)
    requires
        contract_view(a) == contract_view(b),
    ensures
        contract_prompt(a) == contract_prompt(b),
{
    lemma_item_lines_views(a.must@, b.must@);
    lemma_item_lines_views(a.must_not@, b.must_not@);
    lemma_item_lines_views(a.decisions@, b.decisions@);
    lemma_item_lines_views(a.allowed_changes@, b.allowed_changes@);
    lemma_item_lines_views(a.forbidden@, b.forbidden@);
    lemma_item_lines_views(a.out_of_scope@, b.out_of_scope@);
    lemma_item_lines_views(a.completion_criteria@, b.completion_criteria@);
}

/// Bullet lists depend on the items' texts only.
pub proof fn lemma_item_lines_views(a: Seq<String>, b: Seq<String>)
    requires
        views(a) == views(b),
    ensures
        forall|pre: Seq<char>, post: Seq<char>| #[trigger] item_lines(a, pre, post) == item_lines(b, pre, post),
        a.len() == b.len(),
    decreases a.len(),
{
    assert(views(a).len() == a.len() && views(b).len() == b.len());
    if a.len() > 0 {
        assert(views(a.drop_last()) =~= views(a).drop_last());
        assert(views(b.drop_last()) =~= views(b).drop_last());
        lemma_item_lines_views(a.drop_last(), b.drop_last());
        assert(a.last()@ == views(a)[a.len() - 1]);
        assert(b.last()@ == views(b)[b.len() - 1]);
        assert forall|pre: Seq<char>, post: Seq<char>| #[trigger] item_lines(a, pre, post) == item_lines(b, pre, post) by {
            let f = |s: String| pre + s@ + post;
            assert(item_lines(a.drop_last(), pre, post) == item_lines(b.drop_last(), pre, post));
            assert(concat_map(a, f) == concat_map(a.drop_last(), f) + f(a.last()));
            assert(concat_map(b, f) == concat_map(b.drop_last(), f) + f(b.last()));
        }
    } else {
        assert forall|pre: Seq<char>, post: Seq<char>| #[trigger] item_lines(a, pre, post) == item_lines(b, pre, post) by {}
    }
}

impl TaskContract {
    /// A copy of the contract.
    pub fn copy(&self) -> (r: TaskContract)
        ensures
            contract_view(r) == contract_view(*self),
    {
        TaskContract {
            name: self.name.clone(),
            intent: self.intent.clone(),
            must: self.must.clone(),
            must_not: self.must_not.clone(),
            decisions: self.decisions.clone(),
            allowed_changes: self.allowed_changes.clone(),
            forbidden: self.forbidden.clone(),
            out_of_scope: self.out_of_scope.clone(),
            completion_criteria: self.completion_criteria.clone(),
        }
    }
}

} // verus!
