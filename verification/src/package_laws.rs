//! What the files that describe a package hold, told line by line from what the package is.

use vstd::prelude::*;
use vstd::string::*;
use crate::asset::{asset_views, Asset, AssetSource, AssetView, IsBuilt, SourceView};
use crate::package::{
    binary_paths, binary_sources, built_positions, control_description, control_head,
    control_relations, control_size, control_text, copyright_lines, copyright_metadata,
    copyright_metadata_given, copyright_text, digest_for, digest_lines, indented, installed_size,
    is_binary, is_built_binary, is_copyright_field, labelled, labelled_some, labelled_trimmed,
    law_built_binaries, law_hex_length, lemma_lines_hold_no_feed, lines_behind, vcs_kind, vcs_lines,
    Package,
};
use crate::path::{components, name_of};
use crate::text::{
    decimal, hex, index_from, lemma_index_from_is, lines, occurs, opt_text, pieces, trimmed,
};

verus! {

/// The text is on one line.
pub open spec fn one_line(t: Seq<char>) -> bool {
    forall|k: int| 0 <= k < t.len() ==> #[trigger] t[k] != '\n'
}

/// The text, where there is one, is on one line.
pub open spec fn some_line(t: Option<String>) -> bool {
    t matches Some(v) ==> one_line(v@)
}

/// All texts are on one line.
pub open spec fn all_one_line(list: Seq<Seq<char>>) -> bool {
    forall|i: int| 0 <= i < list.len() ==> one_line(#[trigger] list[i])
}

/// A line for a value, if there is a value.
pub open spec fn line_for(label: Seq<char>, value: Option<Seq<char>>) -> Seq<Seq<char>> {
    match value {
        Some(v) => seq![label + v],
        None => Seq::empty(),
    }
}

/// What is left of a value without white space around it, if anything is.
pub open spec fn not_blank(value: Option<String>) -> Option<Seq<char>> {
    match value {
        Some(v) => if trimmed(v@).len() > 0 {
            Some(trimmed(v@))
        } else {
            None
        },
        None => None,
    }
}

/// The lines, each ended by a line feed.
pub open spec fn ended(list: Seq<Seq<char>>) -> Seq<char>
    decreases list.len(),
{
    if list.len() == 0 {
        Seq::empty()
    } else {
        ended(list.drop_last()) + list.last() + seq!['\n']
    }
}

/// Lines behind lines.
proof fn lemma_ended_concat(a: Seq<Seq<char>>, b: Seq<Seq<char>>)
    ensures
        ended(a + b) == ended(a) + ended(b),
    decreases b.len(),
{
    if b.len() == 0 {
        assert(a + b =~= a);
        assert(ended(a) + ended(b) =~= ended(a));
    } else {
        assert((a + b).drop_last() =~= a + b.drop_last());
        lemma_ended_concat(a, b.drop_last());
        assert(ended(a + b) =~= ended(a) + ended(b));
    }
}

/// One line.
proof fn lemma_ended_one(line: Seq<char>)
    ensures
        ended(seq![line]) == line + seq!['\n'],
{
    assert(seq![line].drop_last() =~= Seq::empty());
    assert(ended(Seq::<Seq<char>>::empty()) =~= Seq::empty());
    assert(ended(seq![line]) =~= line + seq!['\n']);
}

/// A line in front of a text is its first piece.
proof fn lemma_first_piece(line: Seq<char>, rest: Seq<char>)
    requires
        one_line(line),
    ensures
        pieces(line + seq!['\n'] + rest, '\n') == seq![line] + pieces(rest, '\n'),
{
    let t = line + seq!['\n'] + rest;
    let n = line.len() as int;
    assert forall|k: int| 0 <= k < n implies t[k] != '\n' by {
        assert(t[k] == line[k]);
    }
    lemma_index_from_is(t, '\n', 0, n);
    assert(t.subrange(0, n) =~= line);
    assert(t.skip(n + 1) =~= rest);
}

/// Lines in front of a text are its first pieces.
proof fn lemma_first_pieces(list: Seq<Seq<char>>, rest: Seq<char>)
    requires
        all_one_line(list),
    ensures
        pieces(ended(list) + rest, '\n') == list + pieces(rest, '\n'),
    decreases list.len(),
{
    if list.len() == 0 {
        assert(ended(list) + rest =~= rest);
        assert(list + pieces(rest, '\n') =~= pieces(rest, '\n'));
    } else {
        let front = list.drop_last();
        let last = list.last();
        assert(all_one_line(front)) by {
            assert forall|i: int| 0 <= i < front.len() implies one_line(#[trigger] front[i]) by {
                assert(front[i] == list[i]);
            }
        }
        assert(one_line(list[list.len() - 1]));
        lemma_first_pieces(front, last + seq!['\n'] + rest);
        lemma_first_piece(last, rest);
        assert(ended(list) + rest =~= ended(front) + (last + seq!['\n'] + rest));
        assert(list + pieces(rest, '\n') =~= front + (seq![last] + pieces(rest, '\n')));
    }
}

/// The pieces of lines that are all ended: the lines, and nothing behind the last.
proof fn lemma_pieces_of_ended(list: Seq<Seq<char>>)
    requires
        all_one_line(list),
    ensures
        pieces(ended(list), '\n') == list.push(Seq::empty()),
{
    let none = Seq::<char>::empty();
    lemma_first_pieces(list, none);
    assert(ended(list) + none =~= ended(list));
    assert(index_from(none, '\n', 0) == 0);
    assert(pieces(none, '\n') =~= seq![none]);
    assert(list + seq![none] =~= list.push(none));
}

/// A line for a value is that line, ended.
proof fn lemma_line_for(label: Seq<char>, value: Option<String>)
    ensures
        labelled_some(label, value) == ended(line_for(label, opt_text(value))),
        labelled_trimmed(label, value) == ended(line_for(label, not_blank(value))),
{
    match value {
        Some(v) => {
            lemma_ended_one(label + v@);
            lemma_ended_one(label + trimmed(v@));
        },
        None => {},
    }
}

/// The lines about the repository.
pub open spec fn repository_lines(repository: Option<String>) -> Seq<Seq<char>> {
    match repository {
        Some(repo) => line_for(
            "Vcs-Browser: "@,
            if "http"@.is_prefix_of(repo@) {
                Some(repo@)
            } else {
                None
            },
        ) + (match vcs_kind(repo@) {
            Some(kind) => seq!["Vcs-"@ + kind + ": "@ + repo@],
            None => Seq::empty(),
        }),
        None => Seq::empty(),
    }
}

/// The lines in front of the descriptions: those that a package always has, and one for each
/// optional field that it has, whatever else it has. A homepage stands before a documentation.
/// Relations without anything but white space do not count.
pub open spec fn field_lines(p: Package, deps: Seq<char>, size: int) -> Seq<Seq<char>> {
    seq![
        "Package: "@ + p.deb_name@,
        "Version: "@ + p.deb_version@,
        "Architecture: "@ + p.architecture@,
    ] + repository_lines(p.repository) + line_for(
        "Homepage: "@,
        if p.homepage is Some {
            opt_text(p.homepage)
        } else {
            opt_text(p.documentation)
        },
    ) + line_for("Section: "@, opt_text(p.section)) + seq![
        "Priority: "@ + p.priority@,
        "Maintainer: "@ + p.maintainer@,
        "Installed-Size: "@ + decimal(size as nat),
    ] + relation_lines(p, deps)
}

/// The lines about the relations to other packages.
pub open spec fn relation_lines(p: Package, deps: Seq<char>) -> Seq<Seq<char>> {
    line_for(
        "Depends: "@,
        if deps.len() > 0 {
            Some(deps)
        } else {
            None
        },
    ) + line_for("Pre-Depends: "@, not_blank(p.pre_depends)) + line_for(
        "Recommends: "@,
        not_blank(p.recommends),
    ) + line_for("Suggests: "@, not_blank(p.suggests)) + line_for(
        "Enhances: "@,
        not_blank(p.enhances),
    ) + line_for("Conflicts: "@, opt_text(p.conflicts)) + line_for("Breaks: "@, opt_text(p.breaks))
        + line_for("Replaces: "@, opt_text(p.replaces)) + line_for(
        "Provides: "@,
        opt_text(p.provides),
    )
}

/// The lines of the descriptions: a space stands before each, and the name of the field before
/// the first; an empty line ends them.
pub open spec fn description_lines(list: Seq<Seq<char>>) -> Seq<Seq<char>> {
    if list.len() == 0 {
        seq!["Description:"@]
    } else {
        seq!["Description:"@ + seq![' '] + list[0]] + list.skip(1).map_values(
            |l: Seq<char>| seq![' '] + l,
        ) + seq![Seq::empty()]
    }
}

/// Three lines, ended.
proof fn lemma_three(a: Seq<char>, b: Seq<char>, c: Seq<char>)
    ensures
        ended(seq![a, b, c]) == a + seq!['\n'] + (b + seq!['\n']) + (c + seq!['\n']),
{
    lemma_ended_one(a);
    lemma_ended_one(b);
    lemma_ended_one(c);
    lemma_ended_concat(seq![a], seq![b]);
    lemma_ended_concat(seq![a] + seq![b], seq![c]);
    assert(seq![a] + seq![b] + seq![c] =~= seq![a, b, c]);
}

/// The lines about the repository, ended.
proof fn lemma_repository_lines(repository: Option<String>)
    ensures
        vcs_lines(repository) == ended(repository_lines(repository)),
{
    if let Some(repo) = repository {
        lemma_ended_one("Vcs-Browser: "@ + repo@);
        let first = line_for(
            "Vcs-Browser: "@,
            if "http"@.is_prefix_of(repo@) {
                Some(repo@)
            } else {
                None
            },
        );
        match vcs_kind(repo@) {
            Some(kind) => {
                lemma_ended_one("Vcs-"@ + kind + ": "@ + repo@);
                lemma_ended_concat(first, seq!["Vcs-"@ + kind + ": "@ + repo@]);
            },
            None => {
                lemma_ended_concat(first, Seq::empty());
            },
        }
        assert(vcs_lines(repository) =~= ended(repository_lines(repository)));
    }
}

/// The relations, ended.
proof fn lemma_relation_lines(p: Package, deps: Seq<char>)
    ensures
        control_relations(p, deps) == ended(relation_lines(p, deps)),
{
    lemma_ended_one("Depends: "@ + deps);
    lemma_line_for("Pre-Depends: "@, p.pre_depends);
    lemma_line_for("Recommends: "@, p.recommends);
    lemma_line_for("Suggests: "@, p.suggests);
    lemma_line_for("Enhances: "@, p.enhances);
    lemma_line_for("Conflicts: "@, p.conflicts);
    lemma_line_for("Breaks: "@, p.breaks);
    lemma_line_for("Replaces: "@, p.replaces);
    lemma_line_for("Provides: "@, p.provides);
    let l0 = line_for(
        "Depends: "@,
        if deps.len() > 0 {
            Some(deps)
        } else {
            None
        },
    );
    let l1 = l0 + line_for("Pre-Depends: "@, not_blank(p.pre_depends));
    let l2 = l1 + line_for("Recommends: "@, not_blank(p.recommends));
    let l3 = l2 + line_for("Suggests: "@, not_blank(p.suggests));
    let l4 = l3 + line_for("Enhances: "@, not_blank(p.enhances));
    let l5 = l4 + line_for("Conflicts: "@, opt_text(p.conflicts));
    let l6 = l5 + line_for("Breaks: "@, opt_text(p.breaks));
    let l7 = l6 + line_for("Replaces: "@, opt_text(p.replaces));
    lemma_ended_concat(l0, line_for("Pre-Depends: "@, not_blank(p.pre_depends)));
    lemma_ended_concat(l1, line_for("Recommends: "@, not_blank(p.recommends)));
    lemma_ended_concat(l2, line_for("Suggests: "@, not_blank(p.suggests)));
    lemma_ended_concat(l3, line_for("Enhances: "@, not_blank(p.enhances)));
    lemma_ended_concat(l4, line_for("Conflicts: "@, opt_text(p.conflicts)));
    lemma_ended_concat(l5, line_for("Breaks: "@, opt_text(p.breaks)));
    lemma_ended_concat(l6, line_for("Replaces: "@, opt_text(p.replaces)));
    lemma_ended_concat(l7, line_for("Provides: "@, opt_text(p.provides)));
}

/// The fields, ended.
proof fn lemma_field_lines(p: Package, deps: Seq<char>, on_disk: Seq<Option<u64>>)
    ensures
        control_head(p) + control_size(p, on_disk) + control_relations(p, deps) == ended(
            field_lines(p, deps, installed_size(asset_views(p.assets.resolved@), on_disk)),
        ),
{
    let size = installed_size(asset_views(p.assets.resolved@), on_disk);
    let l0 = seq![
        "Package: "@ + p.deb_name@,
        "Version: "@ + p.deb_version@,
        "Architecture: "@ + p.architecture@,
    ];
    lemma_three(l0[0], l0[1], l0[2]);
    let vcs = repository_lines(p.repository);
    let home = line_for(
        "Homepage: "@,
        if p.homepage is Some {
            opt_text(p.homepage)
        } else {
            opt_text(p.documentation)
        },
    );
    let section = line_for("Section: "@, opt_text(p.section));
    let who = seq![
        "Priority: "@ + p.priority@,
        "Maintainer: "@ + p.maintainer@,
        "Installed-Size: "@ + decimal(size as nat),
    ];
    lemma_repository_lines(p.repository);
    lemma_line_for("Homepage: "@, p.homepage);
    lemma_line_for("Homepage: "@, p.documentation);
    lemma_line_for("Section: "@, p.section);
    lemma_three(who[0], who[1], who[2]);
    lemma_relation_lines(p, deps);
    lemma_ended_concat(l0, vcs);
    lemma_ended_concat(l0 + vcs, home);
    lemma_ended_concat(l0 + vcs + home, section);
    lemma_ended_concat(l0 + vcs + home + section, who);
    lemma_ended_concat(l0 + vcs + home + section + who, relation_lines(p, deps));
    assert(control_head(p) + control_size(p, on_disk) =~= ended(l0) + ended(vcs) + ended(home)
        + ended(section) + ended(who));
}

/// Indented lines, ended.
proof fn lemma_indented(list: Seq<Seq<char>>)
    ensures
        indented(list) == ended(list.map_values(|l: Seq<char>| seq![' '] + l)),
    decreases list.len(),
{
    let spaced = list.map_values(|l: Seq<char>| seq![' '] + l);
    if list.len() > 0 {
        lemma_indented(list.drop_last());
        assert(spaced.drop_last() =~= list.drop_last().map_values(|l: Seq<char>| seq![' '] + l));
        assert(indented(list) =~= ended(spaced));
    }
}

/// The descriptions, ended.
proof fn lemma_description_lines(
    p: Package,
    description: Seq<Seq<char>>,
    extended_description: Seq<Seq<char>>,
)
    ensures
        control_description(p, description, extended_description) == ended(
            description_lines(
                if p.extended_description is Some {
                    description + extended_description
                } else {
                    description
                },
            ),
        ),
{
    let all = if p.extended_description is Some {
        description + extended_description
    } else {
        description
    };
    let spaced = all.map_values(|l: Seq<char>| seq![' '] + l);
    let none = Seq::<char>::empty();
    lemma_indented(description);
    lemma_indented(extended_description);
    let a = description.map_values(|l: Seq<char>| seq![' '] + l);
    let b = extended_description.map_values(|l: Seq<char>| seq![' '] + l);
    lemma_ended_concat(a, b);
    assert(p.extended_description is Some ==> spaced =~= a + b);
    assert(control_description(p, description, extended_description) =~= "Description:"@ + ended(
        spaced,
    ) + seq!['\n']);
    if all.len() == 0 {
        lemma_ended_one("Description:"@);
        assert(spaced =~= Seq::empty());
        assert("Description:"@ + ended(spaced) + seq!['\n'] =~= "Description:"@ + seq!['\n']);
    } else {
        let first = "Description:"@ + seq![' '] + all[0];
        let rest = all.skip(1).map_values(|l: Seq<char>| seq![' '] + l);
        assert(spaced =~= seq![spaced[0]] + rest);
        lemma_ended_concat(seq![spaced[0]], rest);
        lemma_ended_one(spaced[0]);
        lemma_ended_one(first);
        lemma_ended_one(none);
        lemma_ended_concat(seq![first], rest);
        lemma_ended_concat(seq![first] + rest, seq![none]);
        assert("Description:"@ + ended(spaced) + seq!['\n'] =~= first + seq!['\n'] + ended(rest)
            + (none + seq!['\n']));
    }
}

/// The control file is made of these lines, each with a line feed behind it, whatever the values
/// hold. Each optional field stands for itself: it has its line if and only if it has a value,
/// whatever the dependencies and the other fields are.
pub proof fn law_control_is_lines(
    p: Package,
    deps: Seq<char>,
    on_disk: Seq<Option<u64>>,
    description: Seq<Seq<char>>,
    extended_description: Seq<Seq<char>>,
)
    ensures
        control_text(p, deps, on_disk, description, extended_description) == ended(
            field_lines(p, deps, installed_size(asset_views(p.assets.resolved@), on_disk))
                + description_lines(
                if p.extended_description is Some {
                    description + extended_description
                } else {
                    description
                },
            ),
        ),
{
    let all = if p.extended_description is Some {
        description + extended_description
    } else {
        description
    };
    lemma_field_lines(p, deps, on_disk);
    lemma_description_lines(p, description, extended_description);
    lemma_ended_concat(
        field_lines(p, deps, installed_size(asset_views(p.assets.resolved@), on_disk)),
        description_lines(all),
    );
}

/// Where no value holds a line feed, those are the lines that the control file is read as.
pub proof fn law_control_lines(
    p: Package,
    deps: Seq<char>,
    on_disk: Seq<Option<u64>>,
    description: Seq<Seq<char>>,
    extended_description: Seq<Seq<char>>,
)
    requires
        all_one_line(
            field_lines(p, deps, installed_size(asset_views(p.assets.resolved@), on_disk)),
        ),
        all_one_line(description),
        all_one_line(extended_description),
    ensures
        pieces(control_text(p, deps, on_disk, description, extended_description), '\n')
            == field_lines(p, deps, installed_size(asset_views(p.assets.resolved@), on_disk))
            + description_lines(
            if p.extended_description is Some {
                description + extended_description
            } else {
                description
            },
        ) + seq![Seq::<char>::empty()],
{
    let fields = field_lines(p, deps, installed_size(asset_views(p.assets.resolved@), on_disk));
    let all = if p.extended_description is Some {
        description + extended_description
    } else {
        description
    };
    let tail = description_lines(all);
    law_control_is_lines(p, deps, on_disk, description, extended_description);
    reveal_strlit("Description:");
    assert(all_one_line(tail)) by {
        assert forall|i: int| 0 <= i < tail.len() implies one_line(#[trigger] tail[i]) by {
            if all.len() > 0 {
                if 0 < i < all.len() {
                    assert(tail[i] == seq![' '] + all[i]);
                }
                if i < all.len() {
                    assert(one_line(all[i])) by {
                        if i < description.len() {
                            assert(all[i] == description[i]);
                        } else {
                            assert(all[i] == extended_description[i - description.len()]);
                        }
                    }
                }
                if i == 0 {
                    assert(tail[0] == "Description:"@ + seq![' '] + all[0]);
                }
            }
        }
    }
    assert(all_one_line(fields + tail)) by {
        assert forall|i: int| 0 <= i < (fields + tail).len() implies one_line(
            #[trigger] (fields + tail)[i],
        ) by {
            if i < fields.len() {
                assert((fields + tail)[i] == fields[i]);
            } else {
                assert((fields + tail)[i] == tail[i - fields.len()]);
            }
        }
    }
    lemma_pieces_of_ended(fields + tail);
    assert((fields + tail).push(Seq::empty()) =~= fields + tail + seq![Seq::<char>::empty()]);
}

/// One text is the other with one more line in it.
pub open spec fn one_line_more(with: Seq<char>, without: Seq<char>, line: Seq<char>) -> bool {
    exists|a: Seq<char>, b: Seq<char>|
        #[trigger] (a + b) == without && with == a + (line + seq!['\n']) + b
}

/// A line in the middle of a part in the middle of a text.
proof fn lemma_one_line_more(
    head: Seq<char>,
    x: Seq<char>,
    line: Seq<char>,
    y: Seq<char>,
    tail: Seq<char>,
)
    ensures
        one_line_more(
            head + (x + (line + seq!['\n']) + y) + tail,
            head + (x + y) + tail,
            line,
        ),
{
    let a = head + x;
    let b = y + tail;
    assert(a + b =~= head + (x + y) + tail);
    assert(head + (x + (line + seq!['\n']) + y) + tail =~= a + (line + seq!['\n']) + b);
}

/// A relation to other packages stands for itself: to take one away takes its line out of the
/// control file, and nothing else, whatever the dependencies and the other fields are. One that
/// is blank has no line.
pub proof fn law_relations_stand_for_themselves(
    p: Package,
    deps: Seq<char>,
    on_disk: Seq<Option<u64>>,
    description: Seq<Seq<char>>,
    extended_description: Seq<Seq<char>>,
)
    ensures
        ({
            let text = |q: Package, d: Seq<char>|
                control_text(q, d, on_disk, description, extended_description);
            &&& deps.len() > 0 ==> one_line_more(
                text(p, deps),
                text(p, Seq::empty()),
                "Depends: "@ + deps,
            )
            &&& (match not_blank(p.pre_depends) {
                Some(v) => one_line_more(
                    text(p, deps),
                    text(Package { pre_depends: None, ..p }, deps),
                    "Pre-Depends: "@ + v,
                ),
                None => text(p, deps) == text(Package { pre_depends: None, ..p }, deps),
            })
            &&& (match not_blank(p.recommends) {
                Some(v) => one_line_more(
                    text(p, deps),
                    text(Package { recommends: None, ..p }, deps),
                    "Recommends: "@ + v,
                ),
                None => text(p, deps) == text(Package { recommends: None, ..p }, deps),
            })
            &&& (match not_blank(p.suggests) {
                Some(v) => one_line_more(
                    text(p, deps),
                    text(Package { suggests: None, ..p }, deps),
                    "Suggests: "@ + v,
                ),
                None => text(p, deps) == text(Package { suggests: None, ..p }, deps),
            })
            &&& (match not_blank(p.enhances) {
                Some(v) => one_line_more(
                    text(p, deps),
                    text(Package { enhances: None, ..p }, deps),
                    "Enhances: "@ + v,
                ),
                None => text(p, deps) == text(Package { enhances: None, ..p }, deps),
            })
            &&& (match p.conflicts {
                Some(v) => one_line_more(
                    text(p, deps),
                    text(Package { conflicts: None, ..p }, deps),
                    "Conflicts: "@ + v@,
                ),
                None => true,
            })
            &&& (match p.breaks {
                Some(v) => one_line_more(
                    text(p, deps),
                    text(Package { breaks: None, ..p }, deps),
                    "Breaks: "@ + v@,
                ),
                None => true,
            })
            &&& (match p.replaces {
                Some(v) => one_line_more(
                    text(p, deps),
                    text(Package { replaces: None, ..p }, deps),
                    "Replaces: "@ + v@,
                ),
                None => true,
            })
            &&& (match p.provides {
                Some(v) => one_line_more(
                    text(p, deps),
                    text(Package { provides: None, ..p }, deps),
                    "Provides: "@ + v@,
                ),
                None => true,
            })
        }),
{
    lemma_without_depends(p, deps, on_disk, description, extended_description);
    lemma_without_pre_depends(p, deps, on_disk, description, extended_description);
    lemma_without_recommends(p, deps, on_disk, description, extended_description);
    lemma_without_suggests(p, deps, on_disk, description, extended_description);
    lemma_without_enhances(p, deps, on_disk, description, extended_description);
    lemma_without_conflicts(p, deps, on_disk, description, extended_description);
    lemma_without_breaks(p, deps, on_disk, description, extended_description);
    lemma_without_replaces(p, deps, on_disk, description, extended_description);
    lemma_without_provides(p, deps, on_disk, description, extended_description);
}

/// The text with the relation and without it.
#[verifier::rlimit(40)]
proof fn lemma_without_depends(
    p: Package,
    deps: Seq<char>,
    on_disk: Seq<Option<u64>>,
    description: Seq<Seq<char>>,
    extended_description: Seq<Seq<char>>,
)
    ensures
        ({
            let text = |q: Package, d: Seq<char>|
                control_text(q, d, on_disk, description, extended_description);
            deps.len() > 0 ==> one_line_more(
                text(p, deps),
                text(p, Seq::empty()),
                "Depends: "@ + deps,
            )
        }),
{
    let none = Seq::<char>::empty();
    let head = control_head(p) + control_size(p, on_disk);
    let tail = control_description(p, description, extended_description);
    let y = labelled_trimmed("Pre-Depends: "@, p.pre_depends)
        + labelled_trimmed("Recommends: "@, p.recommends)
        + labelled_trimmed("Suggests: "@, p.suggests)
        + labelled_trimmed("Enhances: "@, p.enhances)
        + labelled_some("Conflicts: "@, p.conflicts)
        + labelled_some("Breaks: "@, p.breaks)
        + labelled_some("Replaces: "@, p.replaces)
        + labelled_some("Provides: "@, p.provides);
    if deps.len() > 0 {
        let line = "Depends: "@ + deps;
        assert(control_relations(p, deps) =~= none + (line + seq!['\n']) + y);
        assert(control_relations(p, none) =~= none + y);
        lemma_one_line_more(head, none, line, y, tail);
    }
}

/// The text with the relation and without it.
#[verifier::rlimit(40)]
proof fn lemma_without_pre_depends(
    p: Package,
    deps: Seq<char>,
    on_disk: Seq<Option<u64>>,
    description: Seq<Seq<char>>,
    extended_description: Seq<Seq<char>>,
)
    ensures
        ({
            let text = |q: Package, d: Seq<char>|
                control_text(q, d, on_disk, description, extended_description);
            match not_blank(p.pre_depends) {
                Some(v) => one_line_more(
                    text(p, deps),
                    text(Package { pre_depends: None, ..p }, deps),
                    "Pre-Depends: "@ + v,
                ),
                None => text(p, deps) == text(Package { pre_depends: None, ..p }, deps),
            }
        }),
{
    let head = control_head(p) + control_size(p, on_disk);
    let tail = control_description(p, description, extended_description);
    let q = Package { pre_depends: None, ..p };
    let x = (if deps.len() > 0 { labelled("Depends: "@, deps) } else { Seq::empty() });
    let y = labelled_trimmed("Recommends: "@, p.recommends)
        + labelled_trimmed("Suggests: "@, p.suggests)
        + labelled_trimmed("Enhances: "@, p.enhances)
        + labelled_some("Conflicts: "@, p.conflicts)
        + labelled_some("Breaks: "@, p.breaks)
        + labelled_some("Replaces: "@, p.replaces)
        + labelled_some("Provides: "@, p.provides);
    let part = labelled_trimmed("Pre-Depends: "@, p.pre_depends);
    assert(control_relations(p, deps) =~= x + part + y);
    assert(control_relations(q, deps) =~= x + y);
    if let Some(v) = not_blank(p.pre_depends) {
        lemma_one_line_more(head, x, "Pre-Depends: "@ + v, y, tail);
    } else {
        assert(x + part + y =~= x + y);
    }
}

/// The text with the relation and without it.
#[verifier::rlimit(40)]
proof fn lemma_without_recommends(
    p: Package,
    deps: Seq<char>,
    on_disk: Seq<Option<u64>>,
    description: Seq<Seq<char>>,
    extended_description: Seq<Seq<char>>,
)
    ensures
        ({
            let text = |q: Package, d: Seq<char>|
                control_text(q, d, on_disk, description, extended_description);
            match not_blank(p.recommends) {
                Some(v) => one_line_more(
                    text(p, deps),
                    text(Package { recommends: None, ..p }, deps),
                    "Recommends: "@ + v,
                ),
                None => text(p, deps) == text(Package { recommends: None, ..p }, deps),
            }
        }),
{
    let head = control_head(p) + control_size(p, on_disk);
    let tail = control_description(p, description, extended_description);
    let q = Package { recommends: None, ..p };
    let x = (if deps.len() > 0 { labelled("Depends: "@, deps) } else { Seq::empty() })
        + labelled_trimmed("Pre-Depends: "@, p.pre_depends);
    let y = labelled_trimmed("Suggests: "@, p.suggests)
        + labelled_trimmed("Enhances: "@, p.enhances)
        + labelled_some("Conflicts: "@, p.conflicts)
        + labelled_some("Breaks: "@, p.breaks)
        + labelled_some("Replaces: "@, p.replaces)
        + labelled_some("Provides: "@, p.provides);
    let part = labelled_trimmed("Recommends: "@, p.recommends);
    assert(control_relations(p, deps) =~= x + part + y);
    assert(control_relations(q, deps) =~= x + y);
    if let Some(v) = not_blank(p.recommends) {
        lemma_one_line_more(head, x, "Recommends: "@ + v, y, tail);
    } else {
        assert(x + part + y =~= x + y);
    }
}

/// The text with the relation and without it.
#[verifier::rlimit(40)]
proof fn lemma_without_suggests(
    p: Package,
    deps: Seq<char>,
    on_disk: Seq<Option<u64>>,
    description: Seq<Seq<char>>,
    extended_description: Seq<Seq<char>>,
)
    ensures
        ({
            let text = |q: Package, d: Seq<char>|
                control_text(q, d, on_disk, description, extended_description);
            match not_blank(p.suggests) {
                Some(v) => one_line_more(
                    text(p, deps),
                    text(Package { suggests: None, ..p }, deps),
                    "Suggests: "@ + v,
                ),
                None => text(p, deps) == text(Package { suggests: None, ..p }, deps),
            }
        }),
{
    let head = control_head(p) + control_size(p, on_disk);
    let tail = control_description(p, description, extended_description);
    let q = Package { suggests: None, ..p };
    let x = (if deps.len() > 0 { labelled("Depends: "@, deps) } else { Seq::empty() })
        + labelled_trimmed("Pre-Depends: "@, p.pre_depends)
        + labelled_trimmed("Recommends: "@, p.recommends);
    let y = labelled_trimmed("Enhances: "@, p.enhances)
        + labelled_some("Conflicts: "@, p.conflicts)
        + labelled_some("Breaks: "@, p.breaks)
        + labelled_some("Replaces: "@, p.replaces)
        + labelled_some("Provides: "@, p.provides);
    let part = labelled_trimmed("Suggests: "@, p.suggests);
    assert(control_relations(p, deps) =~= x + part + y);
    assert(control_relations(q, deps) =~= x + y);
    if let Some(v) = not_blank(p.suggests) {
        lemma_one_line_more(head, x, "Suggests: "@ + v, y, tail);
    } else {
        assert(x + part + y =~= x + y);
    }
}

/// The text with the relation and without it.
#[verifier::rlimit(40)]
proof fn lemma_without_enhances(
    p: Package,
    deps: Seq<char>,
    on_disk: Seq<Option<u64>>,
    description: Seq<Seq<char>>,
    extended_description: Seq<Seq<char>>,
)
    ensures
        ({
            let text = |q: Package, d: Seq<char>|
                control_text(q, d, on_disk, description, extended_description);
            match not_blank(p.enhances) {
                Some(v) => one_line_more(
                    text(p, deps),
                    text(Package { enhances: None, ..p }, deps),
                    "Enhances: "@ + v,
                ),
                None => text(p, deps) == text(Package { enhances: None, ..p }, deps),
            }
        }),
{
    let head = control_head(p) + control_size(p, on_disk);
    let tail = control_description(p, description, extended_description);
    let q = Package { enhances: None, ..p };
    let x = (if deps.len() > 0 { labelled("Depends: "@, deps) } else { Seq::empty() })
        + labelled_trimmed("Pre-Depends: "@, p.pre_depends)
        + labelled_trimmed("Recommends: "@, p.recommends)
        + labelled_trimmed("Suggests: "@, p.suggests);
    let y = labelled_some("Conflicts: "@, p.conflicts)
        + labelled_some("Breaks: "@, p.breaks)
        + labelled_some("Replaces: "@, p.replaces)
        + labelled_some("Provides: "@, p.provides);
    let part = labelled_trimmed("Enhances: "@, p.enhances);
    assert(control_relations(p, deps) =~= x + part + y);
    assert(control_relations(q, deps) =~= x + y);
    if let Some(v) = not_blank(p.enhances) {
        lemma_one_line_more(head, x, "Enhances: "@ + v, y, tail);
    } else {
        assert(x + part + y =~= x + y);
    }
}

/// The text with the relation and without it.
#[verifier::rlimit(40)]
proof fn lemma_without_conflicts(
    p: Package,
    deps: Seq<char>,
    on_disk: Seq<Option<u64>>,
    description: Seq<Seq<char>>,
    extended_description: Seq<Seq<char>>,
)
    ensures
        ({
            let text = |q: Package, d: Seq<char>|
                control_text(q, d, on_disk, description, extended_description);
            match p.conflicts {
                Some(v) => one_line_more(
                    text(p, deps),
                    text(Package { conflicts: None, ..p }, deps),
                    "Conflicts: "@ + v@,
                ),
                None => true,
            }
        }),
{
    let head = control_head(p) + control_size(p, on_disk);
    let tail = control_description(p, description, extended_description);
    let q = Package { conflicts: None, ..p };
    let x = (if deps.len() > 0 { labelled("Depends: "@, deps) } else { Seq::empty() })
        + labelled_trimmed("Pre-Depends: "@, p.pre_depends)
        + labelled_trimmed("Recommends: "@, p.recommends)
        + labelled_trimmed("Suggests: "@, p.suggests)
        + labelled_trimmed("Enhances: "@, p.enhances);
    let y = labelled_some("Breaks: "@, p.breaks)
        + labelled_some("Replaces: "@, p.replaces)
        + labelled_some("Provides: "@, p.provides);
    let part = labelled_some("Conflicts: "@, p.conflicts);
    assert(control_relations(p, deps) =~= x + part + y);
    assert(control_relations(q, deps) =~= x + y);
    if let Some(v) = p.conflicts {
        lemma_one_line_more(head, x, "Conflicts: "@ + v@, y, tail);
    } else {
        assert(x + part + y =~= x + y);
    }
}

/// The text with the relation and without it.
#[verifier::rlimit(40)]
proof fn lemma_without_breaks(
    p: Package,
    deps: Seq<char>,
    on_disk: Seq<Option<u64>>,
    description: Seq<Seq<char>>,
    extended_description: Seq<Seq<char>>,
)
    ensures
        ({
            let text = |q: Package, d: Seq<char>|
                control_text(q, d, on_disk, description, extended_description);
            match p.breaks {
                Some(v) => one_line_more(
                    text(p, deps),
                    text(Package { breaks: None, ..p }, deps),
                    "Breaks: "@ + v@,
                ),
                None => true,
            }
        }),
{
    let head = control_head(p) + control_size(p, on_disk);
    let tail = control_description(p, description, extended_description);
    let q = Package { breaks: None, ..p };
    let x = (if deps.len() > 0 { labelled("Depends: "@, deps) } else { Seq::empty() })
        + labelled_trimmed("Pre-Depends: "@, p.pre_depends)
        + labelled_trimmed("Recommends: "@, p.recommends)
        + labelled_trimmed("Suggests: "@, p.suggests)
        + labelled_trimmed("Enhances: "@, p.enhances)
        + labelled_some("Conflicts: "@, p.conflicts);
    let y = labelled_some("Replaces: "@, p.replaces)
        + labelled_some("Provides: "@, p.provides);
    let part = labelled_some("Breaks: "@, p.breaks);
    assert(control_relations(p, deps) =~= x + part + y);
    assert(control_relations(q, deps) =~= x + y);
    if let Some(v) = p.breaks {
        lemma_one_line_more(head, x, "Breaks: "@ + v@, y, tail);
    } else {
        assert(x + part + y =~= x + y);
    }
}

/// The text with the relation and without it.
#[verifier::rlimit(40)]
proof fn lemma_without_replaces(
    p: Package,
    deps: Seq<char>,
    on_disk: Seq<Option<u64>>,
    description: Seq<Seq<char>>,
    extended_description: Seq<Seq<char>>,
)
    ensures
        ({
            let text = |q: Package, d: Seq<char>|
                control_text(q, d, on_disk, description, extended_description);
            match p.replaces {
                Some(v) => one_line_more(
                    text(p, deps),
                    text(Package { replaces: None, ..p }, deps),
                    "Replaces: "@ + v@,
                ),
                None => true,
            }
        }),
{
    let head = control_head(p) + control_size(p, on_disk);
    let tail = control_description(p, description, extended_description);
    let q = Package { replaces: None, ..p };
    let x = (if deps.len() > 0 { labelled("Depends: "@, deps) } else { Seq::empty() })
        + labelled_trimmed("Pre-Depends: "@, p.pre_depends)
        + labelled_trimmed("Recommends: "@, p.recommends)
        + labelled_trimmed("Suggests: "@, p.suggests)
        + labelled_trimmed("Enhances: "@, p.enhances)
        + labelled_some("Conflicts: "@, p.conflicts)
        + labelled_some("Breaks: "@, p.breaks);
    let y = labelled_some("Provides: "@, p.provides);
    let part = labelled_some("Replaces: "@, p.replaces);
    assert(control_relations(p, deps) =~= x + part + y);
    assert(control_relations(q, deps) =~= x + y);
    if let Some(v) = p.replaces {
        lemma_one_line_more(head, x, "Replaces: "@ + v@, y, tail);
    } else {
        assert(x + part + y =~= x + y);
    }
}

/// The text with the relation and without it.
#[verifier::rlimit(40)]
proof fn lemma_without_provides(
    p: Package,
    deps: Seq<char>,
    on_disk: Seq<Option<u64>>,
    description: Seq<Seq<char>>,
    extended_description: Seq<Seq<char>>,
)
    ensures
        ({
            let text = |q: Package, d: Seq<char>|
                control_text(q, d, on_disk, description, extended_description);
            match p.provides {
                Some(v) => one_line_more(
                    text(p, deps),
                    text(Package { provides: None, ..p }, deps),
                    "Provides: "@ + v@,
                ),
                None => true,
            }
        }),
{
    let head = control_head(p) + control_size(p, on_disk);
    let tail = control_description(p, description, extended_description);
    let q = Package { provides: None, ..p };
    let x = (if deps.len() > 0 { labelled("Depends: "@, deps) } else { Seq::empty() })
        + labelled_trimmed("Pre-Depends: "@, p.pre_depends)
        + labelled_trimmed("Recommends: "@, p.recommends)
        + labelled_trimmed("Suggests: "@, p.suggests)
        + labelled_trimmed("Enhances: "@, p.enhances)
        + labelled_some("Conflicts: "@, p.conflicts)
        + labelled_some("Breaks: "@, p.breaks)
        + labelled_some("Replaces: "@, p.replaces);
    let y = Seq::<char>::empty();
    let part = labelled_some("Provides: "@, p.provides);
    assert(control_relations(p, deps) =~= x + part + y);
    assert(control_relations(q, deps) =~= x + y);
    if let Some(v) = p.provides {
        lemma_one_line_more(head, x, "Provides: "@ + v@, y, tail);
    } else {
        assert(x + part + y =~= x + y);
    }
}

/// What the URL of a repository tells of its kind, the first hint that fits counting.
pub proof fn law_vcs_kind(repo: Seq<char>)
    ensures
        ({
            let git = "git+"@.is_prefix_of(repo) || ".git"@.is_suffix_of(repo) || occurs(
                repo,
                "git@"@,
            ) || occurs(repo, "github.com"@) || occurs(repo, "gitlab.com"@);
            let cvs = "cvs+"@.is_prefix_of(repo) || occurs(repo, "pserver:"@) || occurs(
                repo,
                "@cvs."@,
            );
            let hg = "hg+"@.is_prefix_of(repo) || occurs(repo, "hg@"@) || occurs(repo, "/hg."@);
            let svn = "svn+"@.is_prefix_of(repo) || occurs(repo, "/svn."@);
            &&& git ==> vcs_kind(repo) == Some("Git"@)
            &&& !git && cvs ==> vcs_kind(repo) == Some("Cvs"@)
            &&& !git && !cvs && hg ==> vcs_kind(repo) == Some("Hg"@)
            &&& !git && !cvs && !hg && svn ==> vcs_kind(repo) == Some("Svn"@)
            &&& !git && !cvs && !hg && !svn ==> vcs_kind(repo) is None
        }),
{
}

/// One more asset adds a kilobyte, and as many as its bytes fill, the last of which may be
/// partly filled. The bytes are those of the file on disk, where the asset is one, or those that
/// the asset holds; a link has none.
pub proof fn law_installed_size_next(
    assets: Seq<AssetView>,
    on_disk: Seq<Option<u64>>,
    a: AssetView,
    size: Option<u64>,
)
    requires
        on_disk.len() == assets.len(),
    ensures
        installed_size(Seq::empty(), on_disk) == 0,
        ({
            let bytes = match a.source {
                SourceView::Path(_) => match size {
                    Some(n) => n as int,
                    None => 0int,
                },
                SourceView::Data(d) => d.len() as u64 as int,
                SourceView::Symlink(_) => 0int,
            };
            let more = installed_size(assets.push(a), on_disk.push(size)) - installed_size(
                assets,
                on_disk,
            ) - 1;
            1024 * (more - 1) < bytes <= 1024 * more
        }),
{
    lemma_installed_size_of_front(assets, on_disk, on_disk.push(size));
    assert(assets.push(a).drop_last() =~= assets);
}

/// The sizes behind those of the assets do not count.
proof fn lemma_installed_size_of_front(
    assets: Seq<AssetView>,
    a: Seq<Option<u64>>,
    b: Seq<Option<u64>>,
)
    requires
        assets.len() <= a.len(),
        assets.len() <= b.len(),
        forall|i: int| 0 <= i < assets.len() ==> a[i] == b[i],
    ensures
        installed_size(assets, a) == installed_size(assets, b),
    decreases assets.len(),
{
    if assets.len() > 0 {
        lemma_installed_size_of_front(assets.drop_last(), a, b);
    }
}

/// Some line among the first ten begins with a field that tells that the metadata are there.
pub open spec fn starts_with_field(list: Seq<Seq<char>>) -> bool {
    exists|i: int|
        0 <= i < list.len() && i < 10 && {
            let line = #[trigger] list[i];
            ||| "License: "@.is_prefix_of(line)
            ||| "Source: "@.is_prefix_of(line)
            ||| "Upstream-Name: "@.is_prefix_of(line)
            ||| "Format: "@.is_prefix_of(line)
        }
}

/// Two ways to say that the metadata are there.
pub proof fn lemma_starts_with_field(file: Seq<char>)
    ensures
        starts_with_field(lines(file)) == copyright_metadata_given(file),
{
    if starts_with_field(lines(file)) {
        let i = choose|i: int|
            0 <= i < lines(file).len() && i < 10 && {
                let line = #[trigger] lines(file)[i];
                ||| "License: "@.is_prefix_of(line)
                ||| "Source: "@.is_prefix_of(line)
                ||| "Upstream-Name: "@.is_prefix_of(line)
                ||| "Format: "@.is_prefix_of(line)
            };
        assert(is_copyright_field(lines(file)[i]));
    }
    if copyright_metadata_given(file) {
        let i = choose|i: int|
            0 <= i < lines(file).len() && i < 10 && is_copyright_field(
                #[trigger] lines(file)[i],
            );
        assert(is_copyright_field(lines(file)[i]));
    }
}

/// The lines of a license file stand in the copyright file as they are and in their order, from
/// the one on that is not skipped; only a line of just one space gets a dot behind it. The
/// metadata of the package, which are all of the copyright file where there is no license file,
/// stand in front, unless the license file brings its own.
pub proof fn law_license_lines_are_kept(p: Package, file: Seq<char>)
    ensures
        ({
            let text = copyright_text(p, Some(file));
            let head = if starts_with_field(lines(file)) {
                Seq::empty()
            } else {
                copyright_text(p, None)
            };
            let skipped = p.license_file_skip_lines as int;
            let body = pieces(text.skip(head.len() as int), '\n');
            let kept = if skipped <= lines(file).len() {
                lines(file).len() - skipped
            } else {
                0
            };
            &&& head.len() <= text.len()
            &&& text.take(head.len() as int) == head
            &&& body.len() == kept + 1
            &&& body[kept] == Seq::<char>::empty()
            &&& forall|i: int|
                0 <= i < kept ==> #[trigger] body[i] == (if lines(file)[skipped + i] == seq![' '] {
                    seq![' ', '.']
                } else {
                    lines(file)[skipped + i]
                })
        }),
{
    let text = copyright_text(p, Some(file));
    let head = if starts_with_field(lines(file)) {
        Seq::empty()
    } else {
        copyright_text(p, None)
    };
    lemma_starts_with_field(file);
    let skipped = p.license_file_skip_lines as int;
    let list = lines_behind(lines(file), skipped);
    let body = copyright_lines(list);
    assert(text == head + body);
    assert(text.take(head.len() as int) =~= head);
    assert(text.skip(head.len() as int) =~= body);
    let dotted = list.map_values(
        |l: Seq<char>|
            if l == seq![' '] {
                seq![' ', '.']
            } else {
                l
            },
    );
    lemma_dotted(list);
    lemma_lines_hold_no_feed(file);
    assert(all_one_line(dotted)) by {
        assert forall|i: int| 0 <= i < dotted.len() implies one_line(#[trigger] dotted[i]) by {
            assert forall|k: int| 0 <= k < dotted[i].len() implies #[trigger] dotted[i][k]
                != '\n' by {
                if list[i] != seq![' '] {
                    assert(lines(file)[skipped + i][k] != '\n');
                }
            }
        }
    }
    lemma_pieces_of_ended(dotted);
    let kept = list.len() as int;
    assert forall|i: int| 0 <= i < kept implies #[trigger] dotted.push(Seq::empty())[i] == (
    if lines(file)[skipped + i] == seq![' '] {
        seq![' ', '.']
    } else {
        lines(file)[skipped + i]
    }) by {
        assert(list[i] == lines(file)[skipped + i]);
    }
}

/// The lines of the license file, ended.
proof fn lemma_dotted(list: Seq<Seq<char>>)
    ensures
        copyright_lines(list) == ended(
            list.map_values(
                |l: Seq<char>|
                    if l == seq![' '] {
                        seq![' ', '.']
                    } else {
                        l
                    },
            ),
        ),
    decreases list.len(),
{
    let f = |l: Seq<char>|
        if l == seq![' '] {
            seq![' ', '.']
        } else {
            l
        };
    if list.len() > 0 {
        lemma_dotted(list.drop_last());
        assert(list.map_values(f).drop_last() =~= list.drop_last().map_values(f));
        assert(copyright_lines(list) =~= ended(list.map_values(f)));
    }
}

/// The lines of the metadata of the package in the copyright file: the format, the name of the
/// project, where its source is, the repository before the homepage, the copyright and the
/// license. What there is no value for has no line.
pub open spec fn metadata_lines(p: Package) -> Seq<Seq<char>> {
    seq![
        "Format: https://www.debian.org/doc/packaging-manuals/copyright-format/1.0/"@,
        "Upstream-Name: "@ + p.name@,
    ] + line_for(
        "Source: "@,
        if p.repository is Some {
            opt_text(p.repository)
        } else {
            opt_text(p.homepage)
        },
    ) + seq!["Copyright: "@ + p.copyright@] + line_for("License: "@, opt_text(p.license))
}

/// A copyright file without a license file is made of these lines, each with a line feed behind
/// it, whatever the values hold.
pub proof fn law_copyright_metadata_lines(p: Package)
    ensures
        copyright_text(p, None) == ended(metadata_lines(p)),
{
    let url = "https://www.debian.org/doc/packaging-manuals/copyright-format/1.0/"@;
    let format = "Format: https://www.debian.org/doc/packaging-manuals/copyright-format/1.0/"@;
    reveal_strlit("https://www.debian.org/doc/packaging-manuals/copyright-format/1.0/");
    reveal_strlit("Format: https://www.debian.org/doc/packaging-manuals/copyright-format/1.0/");
    reveal_strlit("Format: ");
    reveal_strlit("Upstream-Name: ");
    reveal_strlit("Source: ");
    reveal_strlit("Copyright: ");
    reveal_strlit("License: ");
    assert("Format: "@ + url =~= format);
    let name = "Upstream-Name: "@ + p.name@;
    let source = line_for(
        "Source: "@,
        if p.repository is Some {
            opt_text(p.repository)
        } else {
            opt_text(p.homepage)
        },
    );
    let copyright = "Copyright: "@ + p.copyright@;
    let license = line_for("License: "@, opt_text(p.license));
    lemma_ended_one(format);
    lemma_ended_one(name);
    lemma_ended_concat(seq![format], seq![name]);
    lemma_line_for("Source: "@, p.repository);
    lemma_line_for("Source: "@, p.homepage);
    lemma_ended_one(copyright);
    lemma_line_for("License: "@, p.license);
    let l1 = seq![format, name];
    assert(seq![format] + seq![name] =~= l1);
    lemma_ended_concat(l1, source);
    lemma_ended_concat(l1 + source, seq![copyright]);
    lemma_ended_concat(l1 + source + seq![copyright], license);
    let all = l1 + source + seq![copyright] + license;
    assert(copyright_metadata(p) =~= ended(all));
}

/// The entry is the first of the list for the path.
pub open spec fn is_entry_for(hashes: Seq<(String, [u8; 32])>, path: Seq<char>, k: int) -> bool {
    &&& 0 <= k < hashes.len()
    &&& components(hashes[k].0@) == components(path)
    &&& forall|j: int| 0 <= j < k ==> components((#[trigger] hashes[j]).0@) != components(path)
}

/// One more asset adds one line to the list of digests, if there is a digest for the path at
/// which it is installed, and else nothing: 64 digits, two spaces, and that path, wherever the
/// asset comes from.
pub proof fn law_digest_next(assets: Seq<AssetView>, a: AssetView, hashes: Seq<(String, [u8; 32])>)
    ensures
        digest_lines(Seq::empty(), hashes) == Seq::<char>::empty(),
        forall|k: int|
            #[trigger] is_entry_for(hashes, a.c.target_path, k) ==> {
                &&& hex(hashes[k].1@).len() == 64
                &&& digest_lines(assets.push(a), hashes) == digest_lines(assets, hashes) + hex(
                    hashes[k].1@,
                ) + seq![' ', ' '] + a.c.target_path + seq!['\n']
            },
        (forall|k: int| !#[trigger] is_entry_for(hashes, a.c.target_path, k)) ==> digest_lines(
            assets.push(a),
            hashes,
        ) == digest_lines(assets, hashes),
{
    assert(assets.push(a).drop_last() =~= assets);
    let before = digest_lines(assets, hashes);
    reveal_strlit("  ");
    assert("  "@ =~= seq![' ', ' ']);
    lemma_digest_for(hashes, a.c.target_path);
    assert forall|k: int| #[trigger] is_entry_for(hashes, a.c.target_path, k) implies ({
        &&& hex(hashes[k].1@).len() == 64
        &&& digest_lines(assets.push(a), hashes) == before + hex(hashes[k].1@) + seq![' ', ' ']
            + a.c.target_path + seq!['\n']
    }) by {
        law_hex_length(hashes[k].1@);
        assert(hashes[k].1@.len() == 32);
        assert(digest_lines(assets.push(a), hashes) =~= before + hex(hashes[k].1@) + seq![' ', ' ']
            + a.c.target_path + seq!['\n']);
    }
    if forall|k: int| !#[trigger] is_entry_for(hashes, a.c.target_path, k) {
        assert(before + Seq::empty() =~= before);
    }
}

/// The digest for a path is that of the first entry for it.
proof fn lemma_digest_for(hashes: Seq<(String, [u8; 32])>, path: Seq<char>)
    ensures
        match digest_for(hashes, path) {
            Some(d) => exists|k: int| #[trigger] is_entry_for(hashes, path, k) && hashes[k].1@ == d,
            None => forall|k: int| !#[trigger] is_entry_for(hashes, path, k),
        },
        forall|k: int, j: int|
            #[trigger] is_entry_for(hashes, path, k) && #[trigger] is_entry_for(hashes, path, j)
                ==> k == j,
    decreases hashes.len(),
{
    if hashes.len() > 0 {
        if components(hashes[0].0@) == components(path) {
            assert(is_entry_for(hashes, path, 0));
        } else {
            let rest = hashes.skip(1);
            lemma_digest_for(rest, path);
            assert forall|k: int| is_entry_for(rest, path, k) implies #[trigger] is_entry_for(
                hashes,
                path,
                k + 1,
            ) by {
                assert(rest[k] == hashes[k + 1]);
                assert forall|j: int| 0 <= j < k + 1 implies components(
                    (#[trigger] hashes[j]).0@,
                ) != components(path) by {
                    if j > 0 {
                        assert(rest[j - 1] == hashes[j]);
                    }
                }
            }
            assert forall|k: int| #[trigger] is_entry_for(hashes, path, k) implies is_entry_for(
                rest,
                path,
                k - 1,
            ) by {
                assert(rest[k - 1] == hashes[k]);
                assert forall|j: int| 0 <= j < k - 1 implies components(
                    (#[trigger] rest[j]).0@,
                ) != components(path) by {
                    assert(rest[j] == hashes[j + 1]);
                }
            }
            if let Some(d) = digest_for(hashes, path) {
                let k = choose|k: int| #[trigger] is_entry_for(rest, path, k) && rest[k].1@ == d;
                assert(is_entry_for(hashes, path, k + 1));
                assert(hashes[k + 1] == rest[k]);
            }
        }
    }
}

/// Packages whose assets are installed at the same paths have the same list of digests, wherever
/// the assets come from.
pub proof fn law_digests_by_target(
    a: Seq<AssetView>,
    b: Seq<AssetView>,
    hashes: Seq<(String, [u8; 32])>,
)
    requires
        a.len() == b.len(),
        forall|i: int| 0 <= i < a.len() ==> (#[trigger] a[i]).c.target_path == b[i].c.target_path,
    ensures
        digest_lines(a, hashes) == digest_lines(b, hashes),
    decreases a.len(),
{
    if a.len() > 0 {
        let n = a.len() - 1;
        law_digests_by_target(a.drop_last(), b.drop_last(), hashes);
        assert(a[n].c.target_path == b[n].c.target_path);
    }
}

/// The asset is an executable, which someone may run, or a dynamic library by its file name.
pub open spec fn runs_or_is_library(a: AssetView, dll_suffix: Seq<char>) -> bool {
    ||| a.c.chmod & 0o111 != 0
    ||| name_of(a.c.target_path) matches Some(name) && dll_suffix.is_suffix_of(name)
}

/// One more asset adds its path to those of the binaries, if it is an executable or a dynamic
/// library that comes from a file; links and data do not count.
pub proof fn law_binary_paths_next(assets: Seq<AssetView>, a: AssetView, dll_suffix: Seq<char>)
    ensures
        binary_paths(Seq::empty(), dll_suffix) == Seq::<Seq<char>>::empty(),
        binary_paths(assets.push(a), dll_suffix) == (match a.source {
            SourceView::Path(p) => if runs_or_is_library(a, dll_suffix) {
                binary_paths(assets, dll_suffix).push(p)
            } else {
                binary_paths(assets, dll_suffix)
            },
            _ => binary_paths(assets, dll_suffix),
        }),
{
    assert(assets.push(a).drop_last() =~= assets);
}

/// One more asset adds its source to those of the binaries, if it is an executable or a dynamic
/// library, whatever its source is.
pub proof fn law_binary_sources_next(assets: Seq<Asset>, a: Asset, dll_suffix: Seq<char>)
    ensures
        binary_sources(Seq::empty(), dll_suffix) == Seq::<AssetSource>::empty(),
        binary_sources(assets.push(a), dll_suffix) == (if runs_or_is_library(a@, dll_suffix) {
            binary_sources(assets, dll_suffix).push(a.source)
        } else {
            binary_sources(assets, dll_suffix)
        }),
{
    reveal(Seq::filter);
    let f = |x: Asset| is_binary(x@, dll_suffix);
    let none = Seq::<Asset>::empty();
    assert(none.filter(f) =~= none);
    assert(binary_sources(none, dll_suffix) =~= Seq::empty());
    assert(assets.push(a).drop_last() =~= assets);
    assert(assets.push(a).last() == a);
    let before = assets.filter(f);
    if is_binary(a@, dll_suffix) {
        assert(assets.push(a).filter(f) =~= before.push(a));
    } else {
        assert(assets.push(a).filter(f) =~= before);
    }
    assert(binary_sources(assets.push(a), dll_suffix) =~= (if runs_or_is_library(a@, dll_suffix) {
        binary_sources(assets, dll_suffix).push(a.source)
    } else {
        binary_sources(assets, dll_suffix)
    }));
}

/// The binaries that the build makes are the assets that are built and are executables or
/// dynamic libraries; their positions are told from the first on.
pub proof fn law_built_positions(assets: Seq<AssetView>, dll_suffix: Seq<char>, n: nat)
    requires
        n <= assets.len(),
    ensures
        forall|k: int|
            0 <= k < n ==> (#[trigger] built_positions(assets, dll_suffix, n).contains(k) <==> (
            assets[k].c.is_built != IsBuilt::No && runs_or_is_library(assets[k], dll_suffix))),
        forall|i: int, j: int|
            0 <= i < j < built_positions(assets, dll_suffix, n).len() ==> (
            #[trigger] built_positions(assets, dll_suffix, n)[i]) < (#[trigger] built_positions(
                assets,
                dll_suffix,
                n,
            )[j]),
    decreases n,
{
    law_built_binaries(assets, dll_suffix, n);
    assert forall|k: int| 0 <= k < n implies (#[trigger] built_positions(
        assets,
        dll_suffix,
        n,
    ).contains(k) <==> (assets[k].c.is_built != IsBuilt::No && runs_or_is_library(
        assets[k],
        dll_suffix,
    ))) by {
        assert(is_built_binary(assets[k], dll_suffix) <==> (assets[k].c.is_built != IsBuilt::No
            && runs_or_is_library(assets[k], dll_suffix)));
    }
    if n > 0 {
        let front = built_positions(assets, dll_suffix, (n - 1) as nat);
        law_built_positions(assets, dll_suffix, (n - 1) as nat);
        law_built_binaries(assets, dll_suffix, (n - 1) as nat);
        let all = built_positions(assets, dll_suffix, n);
        assert forall|i: int, j: int| 0 <= i < j < all.len() implies (#[trigger] all[i]) < (
        #[trigger] all[j]) by {
            assert(all[i] == front[i]);
            if j < front.len() {
                assert(all[j] == front[j]);
            } else {
                assert(0 <= front[i] < n - 1);
            }
        }
    }
}

} // verus!
