//! What holds of the listings: nothing is left out of them, and everything stands in its
//! place.

use vstd::prelude::*;

use crate::cli::connect::{
    connect_rows_of, connect_text, connected_report_text, connected_text, printed_credential,
    printed_models, recipe_lines, row_key, rows_where, said_credential, said_models, state_of,
    CredentialModel, RecipeModel,
};
use crate::cli::listing::{
    agent_key, agent_lines, agent_section, agents_text, errors_block, errors_text, files_text,
    first_sentence, indented, longest, mcp_text, model_rows, models_text, names_text,
    no_providers_text, of_mode, server_text, servers_list, settings_text, stats_text, tools_of,
    unavailable_text, widest, ModelRowModel, Stats,
};
use crate::cli::startup::{
    carved_text, containment_text, doctor_text, error_lines, faster_line_text, first_chars,
    model_line_text, roots_text, root_paths, sandbox_text, server_line, server_lines, server_target,
    servers_text, session_row_of, with_char, Diagnosis, ModelLine, Network, RootModel, RowModel,
    SandboxModel, SessionSummary,
};
use crate::cli::themes::{palette_text, role_lines, roles, theme_name_of, themes_of, Rgb, ThemeFile};
use crate::config::agent::{scope_label, AgentMode, AgentModel};
use crate::mcp::config::{ConfigModel, ServerConfig};
use crate::mcp::{error_text, McpErrorModel};
use crate::order::{in_order, law_sorting, sorted_by_key};
use crate::permission::mode::label_of;
use crate::text::{
    begins, bytes_of, decimal_of, hex_of, join_of, lemma_find_unique, lines_of, pad_of, trim_of,
};
use crate::text_laws::is_free_of;
use crate::text_map::TextMap;

verus! {

proof fn lemma_behind(front: Seq<char>, text: Seq<char>, more: Seq<char>)
    ensures
        front + text + more == front + (text + more),
{
    assert(front + text + more =~= front + (text + more));
}

proof fn lemma_nothing_before(text: Seq<char>)
    ensures
        Seq::<char>::empty() + text == text,
{
    assert(Seq::<char>::empty() + text =~= text);
}

proof fn lemma_nothing_behind(text: Seq<char>)
    ensures
        text + Seq::<char>::empty() == text,
{
    assert(text + Seq::<char>::empty() =~= text);
}

/// Every error has a line of its own, in its order.
pub proof fn law_every_error_has_its_line(
    a: Seq<Seq<char>>,
    b: Seq<Seq<char>>,
    one: Seq<char>,
)
    ensures
        errors_text(a + b) == errors_text(a) + errors_text(b),
        errors_text(seq![one]) == "  ! "@ + one + "\n"@,
        errors_text(Seq::empty()) == Seq::<char>::empty(),
    decreases b.len(),
{
    reveal_with_fuel(errors_text, 2);
    assert(seq![one].drop_last() =~= Seq::<Seq<char>>::empty());
    assert(seq![one].last() == one);
    lemma_nothing_before("  ! "@);
    let all = a + b;
    if b.len() == 0 {
        assert(all =~= a);
        lemma_nothing_behind(errors_text(a));
    } else {
        let rest = b.drop_last();
        law_every_error_has_its_line(a, rest, one);
        assert(all.drop_last() =~= a + rest);
        assert(all.last() == b.last());
        let last = b.last();
        let front = errors_text(a);
        let t0 = errors_text(rest);
        let t1 = t0 + "  ! "@;
        lemma_behind(front, t0, "  ! "@);
        let t2 = t1 + last;
        lemma_behind(front, t1, last);
        let t3 = t2 + "\n"@;
        lemma_behind(front, t2, "\n"@);
    }
}

/// Everything that cannot be used has a line of its own, with the reason.
pub proof fn law_everything_missing_has_its_line(
    a: Seq<(Seq<char>, Seq<char>)>,
    b: Seq<(Seq<char>, Seq<char>)>,
    one: (Seq<char>, Seq<char>),
)
    ensures
        unavailable_text(a + b) == unavailable_text(a) + unavailable_text(b),
        unavailable_text(seq![one]) == "  "@ + pad_of(one.0, 28) + " "@ + one.1 + "\n"@,
        unavailable_text(Seq::empty()) == Seq::<char>::empty(),
    decreases b.len(),
{
    reveal_with_fuel(unavailable_text, 2);
    assert(seq![one].drop_last() =~= Seq::<(Seq<char>, Seq<char>)>::empty());
    assert(seq![one].last() == one);
    lemma_nothing_before("  "@);
    let all = a + b;
    if b.len() == 0 {
        assert(all =~= a);
        lemma_nothing_behind(unavailable_text(a));
    } else {
        let rest = b.drop_last();
        law_everything_missing_has_its_line(a, rest, one);
        assert(all.drop_last() =~= a + rest);
        assert(all.last() == b.last());
        let last = b.last();
        let front = unavailable_text(a);
        let t0 = unavailable_text(rest);
        let t1 = t0 + "  "@;
        lemma_behind(front, t0, "  "@);
        let t2 = t1 + pad_of(last.0, 28);
        lemma_behind(front, t1, pad_of(last.0, 28));
        let t3 = t2 + " "@;
        lemma_behind(front, t2, " "@);
        let t4 = t3 + last.1;
        lemma_behind(front, t3, last.1);
        let t5 = t4 + "\n"@;
        lemma_behind(front, t4, "\n"@);
    }
}

/// Every tool of a server has a line of its own.
pub proof fn law_every_tool_of_a_server_has_its_line(
    a: Seq<Seq<char>>,
    b: Seq<Seq<char>>,
    one: Seq<char>,
)
    ensures
        names_text(a + b) == names_text(a) + names_text(b),
        names_text(seq![one]) == "      "@ + one + "\n"@,
        names_text(Seq::empty()) == Seq::<char>::empty(),
    decreases b.len(),
{
    reveal_with_fuel(names_text, 2);
    assert(seq![one].drop_last() =~= Seq::<Seq<char>>::empty());
    assert(seq![one].last() == one);
    lemma_nothing_before("      "@);
    let all = a + b;
    if b.len() == 0 {
        assert(all =~= a);
        lemma_nothing_behind(names_text(a));
    } else {
        let rest = b.drop_last();
        law_every_tool_of_a_server_has_its_line(a, rest, one);
        assert(all.drop_last() =~= a + rest);
        assert(all.last() == b.last());
        let last = b.last();
        let front = names_text(a);
        let t0 = names_text(rest);
        let t1 = t0 + "      "@;
        lemma_behind(front, t0, "      "@);
        let t2 = t1 + last;
        lemma_behind(front, t1, last);
        let t3 = t2 + "\n"@;
        lemma_behind(front, t2, "\n"@);
    }
}

/// Every agent has a line of its own: its name, where it comes from and what it is for.
pub proof fn law_every_agent_has_its_line(
    a: Seq<AgentModel>,
    b: Seq<AgentModel>,
    one: AgentModel,
)
    ensures
        agent_lines(a + b) == agent_lines(a) + agent_lines(b),
        agent_lines(seq![one]) == "  "@ + pad_of(one.name, 10) + " "@
            + pad_of(scope_label(one.scope), 10) + " "@
            + first_sentence(one.frontmatter.description) + "\n"@,
        agent_lines(Seq::empty()) == Seq::<char>::empty(),
    decreases b.len(),
{
    reveal_with_fuel(agent_lines, 2);
    assert(seq![one].drop_last() =~= Seq::<AgentModel>::empty());
    assert(seq![one].last() == one);
    lemma_nothing_before("  "@);
    let all = a + b;
    if b.len() == 0 {
        assert(all =~= a);
        lemma_nothing_behind(agent_lines(a));
    } else {
        let rest = b.drop_last();
        law_every_agent_has_its_line(a, rest, one);
        assert(all.drop_last() =~= a + rest);
        assert(all.last() == b.last());
        let last = b.last();
        let front = agent_lines(a);
        let t0 = agent_lines(rest);
        let t1 = t0 + "  "@;
        lemma_behind(front, t0, "  "@);
        let t2 = t1 + pad_of(last.name, 10);
        lemma_behind(front, t1, pad_of(last.name, 10));
        let t3 = t2 + " "@;
        lemma_behind(front, t2, " "@);
        let t4 = t3 + pad_of(scope_label(last.scope), 10);
        lemma_behind(front, t3, pad_of(scope_label(last.scope), 10));
        let t5 = t4 + " "@;
        lemma_behind(front, t4, " "@);
        let t6 = t5 + first_sentence(last.frontmatter.description);
        lemma_behind(front, t5, first_sentence(last.frontmatter.description));
        let t7 = t6 + "\n"@;
        lemma_behind(front, t6, "\n"@);
    }
}

/// Every line is indented, and stands in its place.
pub proof fn law_every_line_is_indented(
    a: Seq<Seq<char>>,
    b: Seq<Seq<char>>,
    one: Seq<char>,
)
    ensures
        indented(a + b) == indented(a) + indented(b),
        indented(seq![one]) == "  "@ + one + "\n"@,
        indented(Seq::empty()) == Seq::<char>::empty(),
    decreases b.len(),
{
    reveal_with_fuel(indented, 2);
    assert(seq![one].drop_last() =~= Seq::<Seq<char>>::empty());
    assert(seq![one].last() == one);
    lemma_nothing_before("  "@);
    let all = a + b;
    if b.len() == 0 {
        assert(all =~= a);
        lemma_nothing_behind(indented(a));
    } else {
        let rest = b.drop_last();
        law_every_line_is_indented(a, rest, one);
        assert(all.drop_last() =~= a + rest);
        assert(all.last() == b.last());
        let last = b.last();
        let front = indented(a);
        let t0 = indented(rest);
        let t1 = t0 + "  "@;
        lemma_behind(front, t0, "  "@);
        let t2 = t1 + last;
        lemma_behind(front, t1, last);
        let t3 = t2 + "\n"@;
        lemma_behind(front, t2, "\n"@);
    }
}

/// Every file has a line of its own, that says whether it is there.
pub proof fn law_every_file_has_its_line(
    column: nat,
    a: Seq<(Seq<char>, bool)>,
    b: Seq<(Seq<char>, bool)>,
    one: (Seq<char>, bool),
)
    ensures
        files_text(a + b, column) == files_text(a, column) + files_text(b, column),
        files_text(seq![one], column) == "  "@ + pad_of(one.0, column) + " "@
            + (if one.1 { "present"@ } else { "absent"@ }) + "\n"@,
        files_text(Seq::empty(), column) == Seq::<char>::empty(),
    decreases b.len(),
{
    reveal_with_fuel(files_text, 2);
    assert(seq![one].drop_last() =~= Seq::<(Seq<char>, bool)>::empty());
    assert(seq![one].last() == one);
    lemma_nothing_before("  "@);
    let all = a + b;
    if b.len() == 0 {
        assert(all =~= a);
        lemma_nothing_behind(files_text(a, column));
    } else {
        let rest = b.drop_last();
        law_every_file_has_its_line(column, a, rest, one);
        assert(all.drop_last() =~= a + rest);
        assert(all.last() == b.last());
        let last = b.last();
        let front = files_text(a, column);
        let t0 = files_text(rest, column);
        let t1 = t0 + "  "@;
        lemma_behind(front, t0, "  "@);
        let t2 = t1 + pad_of(last.0, column);
        lemma_behind(front, t1, pad_of(last.0, column));
        let t3 = t2 + " "@;
        lemma_behind(front, t2, " "@);
        let t4 = t3 + (if last.1 { "present"@ } else { "absent"@ });
        lemma_behind(front, t3, (if last.1 { "present"@ } else { "absent"@ }));
        let t5 = t4 + "\n"@;
        lemma_behind(front, t4, "\n"@);
    }
}

/// Every path that stays read-only has a line of its own.
pub proof fn law_every_carved_path_has_its_line(
    a: Seq<Seq<char>>,
    b: Seq<Seq<char>>,
    one: Seq<char>,
)
    ensures
        carved_text(a + b) == carved_text(a) + carved_text(b),
        carved_text(seq![one]) == "    read-only  "@ + one + "\n"@,
        carved_text(Seq::empty()) == Seq::<char>::empty(),
    decreases b.len(),
{
    reveal_with_fuel(carved_text, 2);
    assert(seq![one].drop_last() =~= Seq::<Seq<char>>::empty());
    assert(seq![one].last() == one);
    lemma_nothing_before("    read-only  "@);
    let all = a + b;
    if b.len() == 0 {
        assert(all =~= a);
        lemma_nothing_behind(carved_text(a));
    } else {
        let rest = b.drop_last();
        law_every_carved_path_has_its_line(a, rest, one);
        assert(all.drop_last() =~= a + rest);
        assert(all.last() == b.last());
        let last = b.last();
        let front = carved_text(a);
        let t0 = carved_text(rest);
        let t1 = t0 + "    read-only  "@;
        lemma_behind(front, t0, "    read-only  "@);
        let t2 = t1 + last;
        lemma_behind(front, t1, last);
        let t3 = t2 + "\n"@;
        lemma_behind(front, t2, "\n"@);
    }
}

/// Every root has a line of its own, and its read-only paths behind it.
pub proof fn law_every_root_has_its_lines(
    a: Seq<RootModel>,
    b: Seq<RootModel>,
    one: RootModel,
)
    ensures
        roots_text(a + b) == roots_text(a) + roots_text(b),
        roots_text(seq![one]) == "  writable     "@ + one.path + "\n"@
            + carved_text(one.read_only_subpaths),
        roots_text(Seq::empty()) == Seq::<char>::empty(),
    decreases b.len(),
{
    reveal_with_fuel(roots_text, 2);
    assert(seq![one].drop_last() =~= Seq::<RootModel>::empty());
    assert(seq![one].last() == one);
    lemma_nothing_before("  writable     "@);
    let all = a + b;
    if b.len() == 0 {
        assert(all =~= a);
        lemma_nothing_behind(roots_text(a));
    } else {
        let rest = b.drop_last();
        law_every_root_has_its_lines(a, rest, one);
        assert(all.drop_last() =~= a + rest);
        assert(all.last() == b.last());
        let last = b.last();
        let front = roots_text(a);
        let t0 = roots_text(rest);
        let t1 = t0 + "  writable     "@;
        lemma_behind(front, t0, "  writable     "@);
        let t2 = t1 + last.path;
        lemma_behind(front, t1, last.path);
        let t3 = t2 + "\n"@;
        lemma_behind(front, t2, "\n"@);
        let t4 = t3 + carved_text(last.read_only_subpaths);
        lemma_behind(front, t3, carved_text(last.read_only_subpaths));
    }
}

/// Every fault of a server has a line of its own.
pub proof fn law_every_server_fault_has_its_line(
    a: Seq<McpErrorModel>,
    b: Seq<McpErrorModel>,
    one: McpErrorModel,
)
    ensures
        error_lines(a + b) == error_lines(a) + error_lines(b),
        error_lines(seq![one]) == "  ! "@ + error_text(one) + "\n"@,
        error_lines(Seq::empty()) == Seq::<char>::empty(),
    decreases b.len(),
{
    reveal_with_fuel(error_lines, 2);
    assert(seq![one].drop_last() =~= Seq::<McpErrorModel>::empty());
    assert(seq![one].last() == one);
    lemma_nothing_before("  ! "@);
    let all = a + b;
    if b.len() == 0 {
        assert(all =~= a);
        lemma_nothing_behind(error_lines(a));
    } else {
        let rest = b.drop_last();
        law_every_server_fault_has_its_line(a, rest, one);
        assert(all.drop_last() =~= a + rest);
        assert(all.last() == b.last());
        let last = b.last();
        let front = error_lines(a);
        let t0 = error_lines(rest);
        let t1 = t0 + "  ! "@;
        lemma_behind(front, t0, "  ! "@);
        let t2 = t1 + error_text(last);
        lemma_behind(front, t1, error_text(last));
        let t3 = t2 + "\n"@;
        lemma_behind(front, t2, "\n"@);
    }
}

/// Every provider has a line of its own: its key, its name and what it needs.
pub proof fn law_every_provider_has_its_line(
    a: Seq<RecipeModel>,
    b: Seq<RecipeModel>,
    one: RecipeModel,
)
    ensures
        recipe_lines(a + b) == recipe_lines(a) + recipe_lines(b),
        recipe_lines(seq![one]) == "  "@ + pad_of(one.key, 12) + " "@ + pad_of(one.name, 22) + " "@
            + state_of(one) + "\n"@,
        recipe_lines(Seq::empty()) == Seq::<char>::empty(),
    decreases b.len(),
{
    reveal_with_fuel(recipe_lines, 2);
    assert(seq![one].drop_last() =~= Seq::<RecipeModel>::empty());
    assert(seq![one].last() == one);
    lemma_nothing_before("  "@);
    let all = a + b;
    if b.len() == 0 {
        assert(all =~= a);
        lemma_nothing_behind(recipe_lines(a));
    } else {
        let rest = b.drop_last();
        law_every_provider_has_its_line(a, rest, one);
        assert(all.drop_last() =~= a + rest);
        assert(all.last() == b.last());
        let last = b.last();
        let front = recipe_lines(a);
        let t0 = recipe_lines(rest);
        let t1 = t0 + "  "@;
        lemma_behind(front, t0, "  "@);
        let t2 = t1 + pad_of(last.key, 12);
        lemma_behind(front, t1, pad_of(last.key, 12));
        let t3 = t2 + " "@;
        lemma_behind(front, t2, " "@);
        let t4 = t3 + pad_of(last.name, 22);
        lemma_behind(front, t3, pad_of(last.name, 22));
        let t5 = t4 + " "@;
        lemma_behind(front, t4, " "@);
        let t6 = t5 + state_of(last);
        lemma_behind(front, t5, state_of(last));
        let t7 = t6 + "\n"@;
        lemma_behind(front, t6, "\n"@);
    }
}

/// Every model that was written is printed, under its provider.
pub proof fn law_every_written_model_is_printed(
    key: Seq<char>,
    a: Seq<(Seq<char>, Seq<char>)>,
    b: Seq<(Seq<char>, Seq<char>)>,
    one: (Seq<char>, Seq<char>),
)
    ensures
        printed_models(key, a + b) == printed_models(key, a) + printed_models(key, b),
        printed_models(key, seq![one]) == "  "@ + key + "/"@ + pad_of(one.0, 12) + " "@ + one.1 + "\n"@,
        printed_models(key, Seq::empty()) == Seq::<char>::empty(),
    decreases b.len(),
{
    reveal_with_fuel(printed_models, 2);
    assert(seq![one].drop_last() =~= Seq::<(Seq<char>, Seq<char>)>::empty());
    assert(seq![one].last() == one);
    lemma_nothing_before("  "@);
    let all = a + b;
    if b.len() == 0 {
        assert(all =~= a);
        lemma_nothing_behind(printed_models(key, a));
    } else {
        let rest = b.drop_last();
        law_every_written_model_is_printed(key, a, rest, one);
        assert(all.drop_last() =~= a + rest);
        assert(all.last() == b.last());
        let last = b.last();
        let front = printed_models(key, a);
        let t0 = printed_models(key, rest);
        let t1 = t0 + "  "@;
        lemma_behind(front, t0, "  "@);
        let t2 = t1 + key;
        lemma_behind(front, t1, key);
        let t3 = t2 + "/"@;
        lemma_behind(front, t2, "/"@);
        let t4 = t3 + pad_of(last.0, 12);
        lemma_behind(front, t3, pad_of(last.0, 12));
        let t5 = t4 + " "@;
        lemma_behind(front, t4, " "@);
        let t6 = t5 + last.1;
        lemma_behind(front, t5, last.1);
        let t7 = t6 + "\n"@;
        lemma_behind(front, t6, "\n"@);
    }
}

/// Every model that was written is said, under its provider.
pub proof fn law_every_written_model_is_said(
    key: Seq<char>,
    a: Seq<(Seq<char>, Seq<char>)>,
    b: Seq<(Seq<char>, Seq<char>)>,
    one: (Seq<char>, Seq<char>),
)
    ensures
        said_models(key, a + b) == said_models(key, a) + said_models(key, b),
        said_models(key, seq![one]) == "- `"@ + key + "/"@ + one.0 + "` — "@ + one.1 + "\n"@,
        said_models(key, Seq::empty()) == Seq::<char>::empty(),
    decreases b.len(),
{
    reveal_with_fuel(said_models, 2);
    assert(seq![one].drop_last() =~= Seq::<(Seq<char>, Seq<char>)>::empty());
    assert(seq![one].last() == one);
    lemma_nothing_before("- `"@);
    let all = a + b;
    if b.len() == 0 {
        assert(all =~= a);
        lemma_nothing_behind(said_models(key, a));
    } else {
        let rest = b.drop_last();
        law_every_written_model_is_said(key, a, rest, one);
        assert(all.drop_last() =~= a + rest);
        assert(all.last() == b.last());
        let last = b.last();
        let front = said_models(key, a);
        let t0 = said_models(key, rest);
        let t1 = t0 + "- `"@;
        lemma_behind(front, t0, "- `"@);
        let t2 = t1 + key;
        lemma_behind(front, t1, key);
        let t3 = t2 + "/"@;
        lemma_behind(front, t2, "/"@);
        let t4 = t3 + last.0;
        lemma_behind(front, t3, last.0);
        let t5 = t4 + "` — "@;
        lemma_behind(front, t4, "` — "@);
        let t6 = t5 + last.1;
        lemma_behind(front, t5, last.1);
        let t7 = t6 + "\n"@;
        lemma_behind(front, t6, "\n"@);
    }
}

/// A server has the tools whose names begin with its prefix, by what stands behind it.
pub proof fn law_a_server_has_the_tools_with_its_prefix(
    prefix: Seq<char>,
    a: Seq<Seq<char>>,
    b: Seq<Seq<char>>,
    one: Seq<char>,
)
    ensures
        tools_of(a + b, prefix) == tools_of(a, prefix) + tools_of(b, prefix),
        begins(one, prefix) ==> tools_of(seq![one], prefix) == seq![one.skip(prefix.len() as int)],
        !(begins(one, prefix)) ==> tools_of(seq![one], prefix).len() == 0,
    decreases b.len(),
{
    reveal_with_fuel(tools_of, 2);
    assert(seq![one].drop_last() =~= Seq::<Seq<char>>::empty());
    assert(seq![one].last() == one);
    if begins(one, prefix) {
        assert(tools_of(seq![one], prefix) =~= seq![one.skip(prefix.len() as int)]);
    }
    let all = a + b;
    if b.len() == 0 {
        assert(all =~= a);
        assert(tools_of(a, prefix) + tools_of(b, prefix) =~= tools_of(a, prefix));
    } else {
        let rest = b.drop_last();
        law_a_server_has_the_tools_with_its_prefix(prefix, a, rest, one);
        assert(all.drop_last() =~= a + rest);
        assert(all.last() == b.last());
        assert(tools_of(all, prefix) =~= tools_of(a, prefix) + tools_of(b, prefix));
    }
}

/// A section has the agents of its mode, all of them and no others.
pub proof fn law_a_section_has_the_agents_of_its_mode(
    mode: AgentMode,
    a: Seq<AgentModel>,
    b: Seq<AgentModel>,
    one: AgentModel,
)
    ensures
        of_mode(a + b, mode) == of_mode(a, mode) + of_mode(b, mode),
        one.frontmatter.mode == mode ==> of_mode(seq![one], mode) == seq![one],
        !(one.frontmatter.mode == mode) ==> of_mode(seq![one], mode).len() == 0,
    decreases b.len(),
{
    reveal_with_fuel(of_mode, 2);
    assert(seq![one].drop_last() =~= Seq::<AgentModel>::empty());
    assert(seq![one].last() == one);
    if one.frontmatter.mode == mode {
        assert(of_mode(seq![one], mode) =~= seq![one]);
    }
    let all = a + b;
    if b.len() == 0 {
        assert(all =~= a);
        assert(of_mode(a, mode) + of_mode(b, mode) =~= of_mode(a, mode));
    } else {
        let rest = b.drop_last();
        law_a_section_has_the_agents_of_its_mode(mode, a, rest, one);
        assert(all.drop_last() =~= a + rest);
        assert(all.last() == b.last());
        assert(of_mode(all, mode) =~= of_mode(a, mode) + of_mode(b, mode));
    }
}

/// Every provider has a row, among the ready or among the others: its key, its name,
/// where to get a key and what it needs.
pub proof fn law_every_provider_has_its_row(
    ready: bool,
    a: Seq<RecipeModel>,
    b: Seq<RecipeModel>,
    one: RecipeModel,
)
    ensures
        rows_where(a + b, ready) == rows_where(a, ready) + rows_where(b, ready),
        one.ready == ready ==> rows_where(seq![one], ready) == seq![
            RowModel {
                key: one.key,
                label: one.name,
                detail: one.help_url,
                state: state_of(one),
                chosen: None,
            },
        ],
        !(one.ready == ready) ==> rows_where(seq![one], ready).len() == 0,
    decreases b.len(),
{
    reveal_with_fuel(rows_where, 2);
    assert(seq![one].drop_last() =~= Seq::<RecipeModel>::empty());
    assert(seq![one].last() == one);
    if one.ready == ready {
        assert(rows_where(seq![one], ready) =~= seq![
            RowModel {
                key: one.key,
                label: one.name,
                detail: one.help_url,
                state: state_of(one),
                chosen: None,
            },
        ]);
    }
    let all = a + b;
    if b.len() == 0 {
        assert(all =~= a);
        assert(rows_where(a, ready) + rows_where(b, ready) =~= rows_where(a, ready));
    } else {
        let rest = b.drop_last();
        law_every_provider_has_its_row(ready, a, rest, one);
        assert(all.drop_last() =~= a + rest);
        assert(all.last() == b.last());
        assert(rows_where(all, ready) =~= rows_where(a, ready) + rows_where(b, ready));
    }
}

/// Every model has a line of its own, under its provider; a provider is named above the
/// first of its models.
pub proof fn law_every_model_has_its_line(models: Seq<ModelRowModel>, one: ModelRowModel)
    requires
        one.provider.len() > 0,
    ensures
        ({
            let line = "  "@ + pad_of(one.reference, 28) + " "@ + pad_of(one.display_name, 28) + " "@
                + decimal_of((one.context_window / 1000) as nat) + "k ctx  "@ + one.api + "\n"@;
            &&& models.len() > 0 && models.last().provider == one.provider ==> model_rows(
                models.push(one),
            ) == model_rows(models) + line
            &&& models.len() == 0 || models.last().provider != one.provider ==> model_rows(
                models.push(one),
            ) == model_rows(models) + ("\n"@ + one.provider + "\n"@) + line
        }),
        model_rows(Seq::empty()) == Seq::<char>::empty(),
{
    let all = models.push(one);
    let line = "  "@ + pad_of(one.reference, 28) + " "@ + pad_of(one.display_name, 28) + " "@
        + decimal_of((one.context_window / 1000) as nat) + "k ctx  "@ + one.api + "\n"@;
    assert(all.drop_last() =~= models);
    assert(all.last() == one);
    if models.len() > 0 {
        assert(all[all.len() - 2] == models.last());
    }
    if models.len() > 0 && models.last().provider == one.provider {
        assert(model_rows(all) =~= model_rows(models) + line);
    } else {
        assert(model_rows(all) =~= model_rows(models) + ("\n"@ + one.provider + "\n"@) + line);
    }
}

/// The list of models: what could not be read, what cannot be used, and every model. Where
/// there is none of either, how to get one.
pub proof fn law_the_list_of_models(
    errors: Seq<Seq<char>>,
    unavailable: Seq<(Seq<char>, Seq<char>)>,
    models: Seq<ModelRowModel>,
)
    ensures
        errors.len() > 0 ==> errors_block(errors) == errors_text(errors) + "\n"@,
        errors.len() == 0 ==> errors_block(errors).len() == 0,
        unavailable.len() == 0 && models.len() > 0 ==> models_text(errors, unavailable, models)
            == errors_block(errors) + model_rows(models),
        unavailable.len() > 0 ==> models_text(errors, unavailable, models) == errors_block(errors)
            + ("not available\n"@ + unavailable_text(unavailable) + "\n"@) + model_rows(models),
        unavailable.len() == 0 && models.len() == 0 ==> models_text(errors, unavailable, models)
            == errors_block(errors) + no_providers_text(),
{
    let nothing = Seq::<char>::empty();
    assert(errors_block(errors) + nothing =~= errors_block(errors));
}

/// A server's lines: its name, how many tools it has and how it is reached, and then each
/// of its tools.
pub proof fn law_the_lines_of_a_server(
    name: Seq<char>,
    config: ConfigModel,
    tools: Seq<Seq<char>>,
)
    ensures
        ({
            let own = tools_of(tools, "mcp__"@ + name + "__"@);
            let state = if !config.enabled {
                "disabled"@
            } else if own.len() == 0 {
                "no tools"@
            } else if own.len() == 1 {
                "1 tool"@
            } else {
                decimal_of(own.len()) + " tools"@
            };
            let target = if config.command is Some {
                config.command->0
            } else if config.url is Some {
                config.url->0
            } else {
                Seq::empty()
            };
            server_text(name, config, tools) == "  "@ + pad_of(name, 16) + " "@ + pad_of(state, 10)
                + " "@ + target + "\n"@ + names_text(own)
        }),
{
}

/// Every server has its lines, in the order of the names.
pub proof fn law_every_server_has_its_lines(
    names: Seq<Seq<char>>,
    servers: Map<Seq<char>, ServerConfig>,
    tools: Seq<Seq<char>>,
    n: int,
    i: int,
)
    requires
        0 <= i < n <= names.len(),
    ensures
        exists|rest: Seq<char>|
            servers_list(names, servers, tools, n) == servers_list(names, servers, tools, i)
                + server_text(names[i], servers[names[i]].deep_view(), tools) + #[trigger] (rest
                + Seq::<char>::empty()),
        exists|rest: Seq<char>|
            server_lines(names, servers, n) == server_lines(names, servers, i) + server_line(
                names[i],
                servers[names[i]].deep_view(),
            ) + #[trigger] (rest + Seq::<char>::empty()),
        servers_list(names, servers, tools, 0).len() == 0,
        server_lines(names, servers, 0).len() == 0,
    decreases n,
{
    let nothing = Seq::<char>::empty();
    let text = server_text(names[i], servers[names[i]].deep_view(), tools);
    let line = server_line(names[i], servers[names[i]].deep_view());
    let texts = servers_list(names, servers, tools, i) + text;
    let lines = server_lines(names, servers, i) + line;
    if i == n - 1 {
        assert(texts + (nothing + nothing) =~= texts);
        assert(lines + (nothing + nothing) =~= lines);
    } else {
        law_every_server_has_its_lines(names, servers, tools, n - 1, i);
        let rest = choose|rest: Seq<char>|
            servers_list(names, servers, tools, n - 1) == texts + #[trigger] (rest + nothing);
        let last = server_text(names[n - 1], servers[names[n - 1]].deep_view(), tools);
        assert(texts + (rest + nothing) + last =~= texts + ((rest + last) + nothing));
        let rows = choose|rows: Seq<char>|
            server_lines(names, servers, n - 1) == lines + #[trigger] (rows + nothing);
        let row = server_line(names[n - 1], servers[names[n - 1]].deep_view());
        assert(lines + (rows + nothing) + row =~= lines + ((rows + row) + nothing));
    }
}

/// The list of servers: what could not be read, and every server that is declared.
pub proof fn law_the_list_of_servers(
    servers: TextMap<ServerConfig>,
    errors: Seq<Seq<char>>,
    tools: Seq<Seq<char>>,
)
    ensures
        servers.keys_of().len() > 0 ==> mcp_text(servers, errors, tools) == errors_block(errors)
            + servers_list(
            servers.keys_of(),
            servers@,
            tools,
            servers.keys_of().len() as int,
        ),
        servers.keys_of().len() == 0 ==> mcp_text(servers, errors, tools) == errors_block(errors)
            + "No MCP servers are configured.\n\n  Declare one in .octane/mcp.json\n"@,
{
}

/// What an agent is for is said up to its first full stop.
pub proof fn law_a_description_ends_at_its_full_stop(sentence: Seq<char>, rest: Seq<char>)
    requires
        is_free_of(sentence, '.'),
    ensures
        first_sentence(sentence + seq!['.'] + rest) == trim_of(sentence.push('.')),
        first_sentence(sentence) == trim_of(sentence),
{
    let all = sentence + seq!['.'] + rest;
    lemma_find_unique(all, '.', sentence.len() as int);
    assert(all.take(sentence.len() as int + 1) =~= sentence.push('.'));
    lemma_find_unique(sentence, '.', sentence.len() as int);
}

/// The list of agents: what could not be read, the primary agents and the subagents, each in
/// the order of their names.
pub proof fn law_the_list_of_agents(agents: Seq<AgentModel>, errors: Seq<Seq<char>>)
    ensures
        exists|primary: Seq<AgentModel>, sub: Seq<AgentModel>|
            {
                &&& in_order(primary, agent_key())
                &&& in_order(sub, agent_key())
                &&& primary.to_multiset() == of_mode(agents, AgentMode::Primary).to_multiset()
                &&& sub.to_multiset() == of_mode(agents, AgentMode::Subagent).to_multiset()
                &&& agents_text(agents, errors) == errors_block(errors) + (if primary.len() == 0 {
                    Seq::empty()
                } else {
                    "\nprimary\n"@ + #[trigger] agent_lines(primary)
                }) + (if sub.len() == 0 {
                    Seq::empty()
                } else {
                    "\nsubagents\n"@ + #[trigger] agent_lines(sub)
                }) + "\n  Define your own in .octane/agents/<name>.md\n"@
            },
{
    let primary = sorted_by_key(of_mode(agents, AgentMode::Primary), agent_key());
    let sub = sorted_by_key(of_mode(agents, AgentMode::Subagent), agent_key());
    law_sorting(of_mode(agents, AgentMode::Primary), agent_key());
    law_sorting(of_mode(agents, AgentMode::Subagent), agent_key());
    reveal_strlit("\n");
    reveal_strlit("primary");
    reveal_strlit("subagents");
    reveal_strlit("\nprimary\n");
    reveal_strlit("\nsubagents\n");
    assert("\n"@ + "primary"@ + "\n"@ =~= "\nprimary\n"@);
    assert("\n"@ + "subagents"@ + "\n"@ =~= "\nsubagents\n"@);
    assert(agent_lines(primary) == agent_lines(primary));
    assert(agent_lines(sub) == agent_lines(sub));
    assert(agent_section(agents, AgentMode::Primary, "primary"@) == (if primary.len() == 0 {
        Seq::empty()
    } else {
        "\nprimary\n"@ + agent_lines(primary)
    }));
    assert(agent_section(agents, AgentMode::Subagent, "subagents"@) == (if sub.len() == 0 {
        Seq::empty()
    } else {
        "\nsubagents\n"@ + agent_lines(sub)
    }));
}

/// Columns are as wide as the widest that stands in them: nothing is wider, and something
/// is as wide, or the column has its least width.
pub proof fn law_columns_are_as_wide_as_needed(paths: Seq<(Seq<char>, bool)>, i: int)
    ensures
        0 <= i < paths.len() ==> paths[i].0.len() <= widest(paths),
        0 <= i < paths.len() ==> bytes_of(paths[i].0) <= longest(paths),
        widest(paths) == 0 || exists|k: int|
            0 <= k < paths.len() && (#[trigger] paths[k]).0.len() == widest(paths),
        longest(paths) >= 4,
        longest(paths) == 4 || exists|k: int|
            0 <= k < paths.len() && bytes_of((#[trigger] paths[k]).0) == longest(paths),
    decreases paths.len(),
{
    if paths.len() > 0 {
        let rest = paths.drop_last();
        law_columns_are_as_wide_as_needed(rest, i);
        if 0 <= i < rest.len() {
            assert(rest[i] == paths[i]);
        }
        assert(paths[paths.len() - 1] == paths.last());
        if widest(paths) == widest(rest) && widest(rest) != 0 {
            let k = choose|k: int|
                0 <= k < rest.len() && (#[trigger] rest[k]).0.len() == widest(rest);
            assert(paths[k] == rest[k]);
        }
        if longest(paths) == longest(rest) && longest(rest) != 4 {
            let k = choose|k: int|
                0 <= k < rest.len() && bytes_of((#[trigger] rest[k]).0) == longest(rest);
            assert(paths[k] == rest[k]);
        }
    }
}

/// The settings as they are shown: what could not be read, every line of what is in effect,
/// and every file that is looked at.
pub proof fn law_the_settings_as_shown(
    errors: Seq<Seq<char>>,
    rendered: Seq<char>,
    paths: Seq<(Seq<char>, bool)>,
)
    ensures
        trim_of(rendered).len() > 0 ==> settings_text(errors, rendered, paths) == errors_block(
            errors,
        ) + ("Resolved settings\n\n"@ + indented(lines_of(rendered)) + "\n"@)
            + "Files, later overriding earlier\n\n"@ + files_text(paths, widest(paths) + 2),
        trim_of(rendered).len() == 0 ==> settings_text(errors, rendered, paths) == errors_block(
            errors,
        ) + "Nothing configured; every setting is at its default.\n"@
            + "Files, later overriding earlier\n\n"@ + files_text(paths, widest(paths) + 2),
{
}

/// What a command may touch is said as it is: nothing confines it, something else does, it
/// can only read, or it can write below these roots; and whether it reaches the network.
pub proof fn law_containment_is_said(roots: Seq<RootModel>, network: Network)
    ensures
        ({
            let reach = if network is Allowed {
                "Allowed"@
            } else {
                "Denied"@
            };
            &&& containment_text(
                SandboxModel::WorkspaceWrite { writable_roots: roots, network },
            ) == "  containment  workspace-write\n"@ + "  network      "@ + reach + "\n"@
                + roots_text(roots)
            &&& containment_text(SandboxModel::ReadOnly { network })
                == "  containment  read-only\n"@ + "  network      "@ + reach + "\n"@
            &&& sandbox_text(SandboxModel::WorkspaceWrite { writable_roots: roots, network })
                == "Commands run confined. Writable: "@ + join_of(
                roots.map_values(|root: RootModel| root.path),
                ", "@,
            )
                + ". Everything else, including `.git/` and `.octane/` inside those roots, is read-only. Network is "@
                + reach
                + ". A denial is the sandbox, not a broken command — do not work around it."@
            &&& sandbox_text(SandboxModel::ReadOnly { network })
                == "Commands run read-only; no path is writable. Network is "@ + reach + "."@
        }),
{
    assert(root_paths(roots) =~= roots.map_values(|root: RootModel| root.path));
}

/// A server's line: its name, how it is reached with its arguments, and whether it is off.
pub proof fn law_the_line_of_a_server(name: Seq<char>, config: ConfigModel)
    ensures
        ({
            let target = if config.command is Some {
                config.command->0
            } else if config.url is Some {
                config.url->0
            } else {
                Seq::empty()
            };
            let line = "  "@ + pad_of(name, 26) + " "@ + target + " "@ + join_of(config.args, " "@);
            &&& config.enabled ==> server_line(name, config) == line + "\n"@
            &&& !config.enabled ==> server_line(name, config) == line + "  (disabled)"@ + "\n"@
        }),
{
    let line = "  "@ + pad_of(name, 26) + " "@ + server_target(config) + " "@ + join_of(
        config.args,
        " "@,
    );
    assert(line + Seq::<char>::empty() =~= line);
}

/// A diagnosis says everything it was asked about, each in its place.
pub proof fn law_a_diagnosis_says_everything(d: Diagnosis<'_>)
    ensures
        doctor_text(d) == "octane "@ + d.version@ + "\n\n"@ + "workspace     "@ + d.workspace@
            + "\n"@ + model_line_text(d.model) + faster_line_text(d.faster) + "mode          "@
            + label_of(d.mode) + "\n\n"@ + "sandbox\n"@ + containment_text(d.sandbox.deep_view())
            + "\n"@ + "mcp servers\n"@ + servers_text(*d.servers, d.errors.deep_view()) + "\n"@
            + "memory files searched, in load order\n  AGENTS.md\n  OCTANE.md\n  OCTANE.local.md\n"@,
        d.servers.keys_of().len() > 0 || d.errors.deep_view().len() > 0 ==> servers_text(
            *d.servers,
            d.errors.deep_view(),
        ) == server_lines(
            d.servers.keys_of(),
            d.servers@,
            d.servers.keys_of().len() as int,
        ) + error_lines(d.errors.deep_view()),
{
    let nothing = Seq::<char>::empty();
    let lines = server_lines(
        d.servers.keys_of(),
        d.servers@,
        d.servers.keys_of().len() as int,
    );
    assert(nothing + lines =~= lines);
}

/// A session's row: when it began, what was asked, which it is, where, and how much was
/// said.
pub proof fn law_the_row_of_a_session(session: SessionSummary, asked: Seq<char>)
    ensures
        ({
            let row = session_row_of(session);
            &&& row.key == session.id@
            &&& row.state == decimal_of(session.messages as nat) + " msg"@
            &&& row.detail == first_chars(session.id@, 12) + "  "@ + session.cwd@
            &&& row.label == with_char(first_chars(session.timestamp@, 16), 'T', ' ') + "  "@ + (
            if session.preview is Some {
                session.preview->0@
            } else {
                "(nothing was asked)"@
            })
        }),
        asked.len() <= 16 ==> first_chars(asked, 16) == asked,
        asked.len() > 16 ==> first_chars(asked, 16) == asked.take(16),
        forall|i: int|
            0 <= i < asked.len() ==> #[trigger] with_char(asked, 'T', ' ')[i] == (if asked[i]
                == 'T' {
                ' '
            } else {
                asked[i]
            }),
{
}

/// The numbers of a session stand each at its own name.
pub proof fn law_every_number_stands_at_its_name(s: Stats)
    ensures
        stats_text(s) == "Session\n\n  model            "@ + s.model@
            + "\n  model calls      "@ + decimal_of(s.calls as nat)
            + "\n\nTokens\n\n  input            "@ + s.input@ + "\n  of which cached  "@ + s.cached@
            + "\n  output           "@ + s.output@ + "\n  reasoning        "@ + s.reasoning@
            + "\n\nContext\n\n  in use           "@ + s.used@ + " of "@ + s.window@ + " ("@
            + s.used_percent@ + "%)\n\nCache\n\n  hit rate         "@ + s.hit_rate@
            + "%\n  cost             $"@ + s.cost@
            + "\n\n  Delegated work is not counted: a subagent reports usage on\n  its own event stream, which this session never sees.\n"@,
{
}

/// What a provider still needs, and the providers in the order of their names, the ready
/// ones first.
pub proof fn law_what_a_provider_needs(recipe: RecipeModel, recipes: Seq<RecipeModel>)
    ensures
        recipe.credential is Nothing ==> state_of(recipe) == "ready"@,
        recipe.credential is TokenFile ==> state_of(recipe) == "needs a token file"@,
        recipe.credential matches CredentialModel::ApiKey { env_var } ==> state_of(recipe) == (
        if recipe.ready {
            env_var + " is set"@
        } else {
            "needs "@ + env_var
        }),
        ({
            let n = rows_where(recipes, true).len() as int;
            let rows = connect_rows_of(recipes);
            &&& in_order(rows.take(n), row_key())
            &&& in_order(rows.skip(n), row_key())
            &&& rows.take(n).to_multiset() == rows_where(recipes, true).to_multiset()
            &&& rows.skip(n).to_multiset() == rows_where(recipes, false).to_multiset()
        }),
{
    let ready = rows_where(recipes, true);
    let others = rows_where(recipes, false);
    law_sorting(ready, row_key());
    law_sorting(others, row_key());
    let rows = connect_rows_of(recipes);
    assert(rows.take(ready.len() as int) =~= sorted_by_key(ready, row_key()));
    assert(rows.skip(ready.len() as int) =~= sorted_by_key(others, row_key()));
}

/// What is said of a provider that was set up: the file, every model, the key that is still
/// missing or is there, and its note.
pub proof fn law_what_is_said_of_a_provider(
    recipe: RecipeModel,
    path: Seq<char>,
    models: Seq<(Seq<char>, Seq<char>)>,
)
    ensures
        ({
            let printed = "Wrote "@ + path + "\n\n"@ + printed_models(recipe.key, models)
                + printed_credential(recipe);
            let said = "Wrote `"@ + path + "`\n\n"@ + said_models(recipe.key, models)
                + said_credential(recipe);
            &&& recipe.note is None ==> connected_text(recipe, path, models) == printed
            &&& recipe.note matches Some(note) ==> connected_text(recipe, path, models) == printed
                + ("\n  Note: "@ + note + "\n"@)
            &&& recipe.note is None ==> connected_report_text(recipe, path, models) == said
            &&& recipe.note matches Some(note) ==> connected_report_text(recipe, path, models)
                == said + ("\n> "@ + note + "\n"@)
        }),
        recipe.credential matches CredentialModel::ApiKey { env_var } ==> {
            &&& recipe.ready ==> printed_credential(recipe) == "\n"@ + ("  "@ + env_var
                + " is set.\n"@)
            &&& recipe.ready ==> said_credential(recipe) == "\n"@ + ("`"@ + env_var
                + "` is set.\n"@)
            &&& !recipe.ready ==> printed_credential(recipe) == "\n"@ + ("  Set "@ + env_var
                + " to finish:\n    export "@ + env_var + "=...        # "@ + recipe.help_url
                + "\n\n  The file references the variable rather than storing the key,\n  so it is safe to commit.\n"@)
        },
        !(recipe.credential is ApiKey) ==> printed_credential(recipe).len() == 0
            && said_credential(recipe).len() == 0,
{
    let printed = "Wrote "@ + path + "\n\n"@ + printed_models(recipe.key, models)
        + printed_credential(recipe);
    let said = "Wrote `"@ + path + "`\n\n"@ + said_models(recipe.key, models) + said_credential(
        recipe,
    );
    assert(printed + Seq::<char>::empty() =~= printed);
    assert(said + Seq::<char>::empty() =~= said);
}

/// A palette's file names every role in its order, with its colour in hexadecimal, red,
/// green and blue, or with none.
pub proof fn law_a_palette_names_every_role(colours: Seq<Option<Rgb>>, i: int)
    requires
        colours.len() == roles().len(),
        0 <= i < colours.len(),
    ensures
        role_lines(colours).len() == roles().len(),
        colours[i] is None ==> role_lines(colours)[i] == "  \""@ + roles()[i] + "\": null"@,
        colours[i] matches Some(rgb) ==> role_lines(colours)[i] == "  \""@ + roles()[i] + "\": \"#"@
            + hex_of(rgb.red as nat, 2) + hex_of(rgb.green as nat, 2) + hex_of(rgb.blue as nat, 2)
            + "\""@,
        palette_text(colours) == "{\n"@ + join_of(role_lines(colours), ",\n"@) + "\n}\n"@,
{
}

/// A theme file gives the theme of its name, in place of an earlier one and of no other;
/// one that cannot be read, or that has the name of a built-in theme, is reported and gives
/// none.
pub proof fn law_a_file_gives_the_theme_of_its_name<P>(
    files: Seq<ThemeFile<P>>,
    file: ThemeFile<P>,
    built_in: Seq<Seq<char>>,
    other: Seq<char>,
)
    ensures
        ({
            let before = themes_of(files, built_in);
            let after = themes_of(files.push(file), built_in);
            match theme_name_of(file.path@) {
                None => after == before,
                Some(name) => {
                    let stands = built_in.contains(name);
                    &&& stands ==> after.themes == before.themes && after.errors
                        == before.errors.push(
                        file.path@ + ": `"@ + name
                            + "` is a built-in theme and cannot be redefined; rename the file."@,
                    )
                    &&& !stands && file.palette is Err ==> after.themes == before.themes
                        && after.errors == before.errors.push(
                        file.path@ + ": "@ + file.palette->Err_0@,
                    )
                    &&& !stands && file.palette is Ok ==> {
                        &&& after.errors == before.errors
                        &&& after.themes.dom().contains(name)
                        &&& after.themes[name] == file.palette->Ok_0
                        &&& other != name ==> after.themes.dom().contains(other)
                            == before.themes.dom().contains(other)
                        &&& other != name && before.themes.dom().contains(other)
                            ==> after.themes[other] == before.themes[other]
                    }
                },
            }
        }),
{
    assert(files.push(file).drop_last() =~= files);
}

/// The list of providers: all of them, and how to set one up.
pub proof fn law_the_list_of_providers(recipes: Seq<RecipeModel>)
    ensures
        connect_text(recipes) == "Providers octane can set up:\n\n"@ + recipe_lines(recipes)
            + "\n  octane connect <name>          write .octane/providers/<name>.json\n  octane connect <name> --user   write it to ~/.octane instead\n"@,
{
}

/// What a diagnosis says of the models: the one in use by its reference, what it resolves to
/// or why it does not; and the faster one, if there is one.
pub proof fn law_what_is_said_of_the_models(
    reference: String,
    model_id: String,
    api: String,
    error: String,
)
    ensures
        model_line_text(ModelLine::Resolved { reference, model_id, api }) == "model         "@
            + reference@ + "  ("@ + model_id@ + ", "@ + api@ + ")\n"@,
        model_line_text(ModelLine::Failed { reference, error }) == "model         "@ + reference@
            + "  — "@ + error@ + "\n"@,
        model_line_text(ModelLine::Default { reference }) == "model         "@ + reference@
            + " (default)\n"@,
        faster_line_text(Some(Ok(reference))) == "faster        "@ + reference@
            + " (compaction)\n"@,
        faster_line_text(Some(Err((reference, error)))) == "faster        "@ + reference@ + "  — "@
            + error@ + "\n"@,
        faster_line_text(None).len() == 0,
{
}

} // verus!
