//! The attribute list of an element: pairs are taken over, the id shorthand
//! may stand once, and all class shorthands become one `class` attribute.
use crate::error::{CompileError, CompileErrorView};
use crate::node::attributes_view;
use crate::syntax::{attribute_list_view, Attribute, AttributeView};
use vstd::prelude::*;
use vstd::string::StringExecFns;

verus! {

/// How many entries of the list are id shorthands.
pub open spec fn id_count(attributes: Seq<AttributeView>) -> nat
    decreases attributes.len(),
{
    if attributes.len() == 0 {
        0
    } else {
        id_count(attributes.drop_last()) + if attributes.last() is Id {
            1nat
        } else {
            0nat
        }
    }
}

/// The values of the list's class shorthands, in the order of the list.
pub open spec fn class_values(attributes: Seq<AttributeView>) -> Seq<Seq<char>>
    decreases attributes.len(),
{
    if attributes.len() == 0 {
        Seq::empty()
    } else {
        match attributes.last() {
            AttributeView::Class(value) => class_values(attributes.drop_last()).push(value),
            _ => class_values(attributes.drop_last()),
        }
    }
}

/// The values with one space between each two.
pub open spec fn join_spaced(values: Seq<Seq<char>>) -> Seq<char>
    decreases values.len(),
{
    if values.len() == 0 {
        Seq::empty()
    } else if values.len() == 1 {
        values[0]
    } else {
        join_spaced(values.drop_last()) + " "@ + values.last()
    }
}

/// What the first `count` entries of the list contribute to the element's
/// attributes: a pair itself, an id shorthand the attribute `id`, the first
/// class shorthand the attribute `class` with the values of all the list's
/// class shorthands, and a later class shorthand nothing.
pub open spec fn merged_prefix(attributes: Seq<AttributeView>, count: nat) -> Seq<
    (Seq<char>, Seq<char>),
>
    decreases count,
{
    if count == 0 || count > attributes.len() {
        Seq::empty()
    } else {
        let before = merged_prefix(attributes, (count - 1) as nat);
        match attributes[count - 1] {
            AttributeView::Pair(name, value) => before.push((name, value)),
            AttributeView::Id(value) => before.push(("id"@, value)),
            AttributeView::Class(_) => if class_values(attributes.take(count - 1)).len() == 0 {
                before.push(("class"@, join_spaced(class_values(attributes))))
            } else {
                before
            },
        }
    }
}

/// The attributes of an element with the given attribute list, or the error
/// for a list with more than one id shorthand.
pub open spec fn merged_attributes(tag: Seq<char>, attributes: Seq<AttributeView>) -> Result<
    Seq<(Seq<char>, Seq<char>)>,
    CompileErrorView,
> {
    if id_count(attributes) >= 2 {
        Err(CompileErrorView::DuplicateIdAttributeError(tag))
    } else {
        Ok(merged_prefix(attributes, attributes.len()))
    }
}

proof fn lemma_take_step<A>(s: Seq<A>, i: int)
    requires
        0 <= i < s.len(),
    ensures
        s.take(i + 1).drop_last() == s.take(i),
        s.take(i + 1).last() == s[i],
        s.take(i + 1).len() == i + 1,
{
    assert(s.take(i + 1).drop_last() =~= s.take(i));
}

proof fn lemma_id_count_grows(attributes: Seq<AttributeView>, count: int)
    requires
        0 <= count <= attributes.len(),
    ensures
        id_count(attributes.take(count)) <= id_count(attributes),
    decreases attributes.len() - count,
{
    if count < attributes.len() {
        lemma_take_step(attributes, count);
        lemma_id_count_grows(attributes, count + 1);
    } else {
        assert(attributes.take(count) =~= attributes);
    }
}

proof fn lemma_all_classes(attributes: Seq<AttributeView>, count: int)
    requires
        0 <= count <= attributes.len(),
        forall|i: int| 0 <= i < attributes.len() ==> attributes[i] is Class,
    ensures
        class_values(attributes.take(count)).len() == count,
        id_count(attributes.take(count)) == 0,
        count > 0 ==> merged_prefix(attributes, count as nat) == seq![
            ("class"@, join_spaced(class_values(attributes))),
        ],
    decreases count,
{
    if count > 0 {
        lemma_all_classes(attributes, count - 1);
        lemma_take_step(attributes, count - 1);
        if count == 1 {
            assert(merged_prefix(attributes, 0) =~= Seq::empty());
            assert(merged_prefix(attributes, 1) =~= seq![
                ("class"@, join_spaced(class_values(attributes))),
            ]);
        }
    } else {
        assert(attributes.take(0) =~= Seq::empty());
    }
}

/// Attribute merge: an attribute list of class shorthands alone gives one
/// attribute, `class`, whose value holds the classes in the order of the
/// list with a space between each two.
pub proof fn lemma_classes_merge(tag: Seq<char>, attributes: Seq<AttributeView>)
    requires
        attributes.len() > 0,
        forall|i: int| 0 <= i < attributes.len() ==> attributes[i] is Class,
    ensures
        merged_attributes(tag, attributes) == Ok::<Seq<(Seq<char>, Seq<char>)>, CompileErrorView>(
            seq![("class"@, join_spaced(class_values(attributes)))],
        ),
{
    lemma_all_classes(attributes, attributes.len() as int);
    assert(attributes.take(attributes.len() as int) =~= attributes);
}

/// Attribute merge: the class shorthands `a` and `b` give the one attribute
/// `class` with the value `a b`.
pub proof fn lemma_two_classes_merge(tag: Seq<char>, a: Seq<char>, b: Seq<char>)
    ensures
        merged_attributes(tag, seq![AttributeView::Class(a), AttributeView::Class(b)]) == Ok::<
            Seq<(Seq<char>, Seq<char>)>,
            CompileErrorView,
        >(seq![("class"@, a + " "@ + b)]),
{
    let attributes = seq![AttributeView::Class(a), AttributeView::Class(b)];
    lemma_classes_merge(tag, attributes);
    reveal_with_fuel(class_values, 3);
    reveal_with_fuel(join_spaced, 3);
    assert(attributes.drop_last() =~= seq![AttributeView::Class(a)]);
    assert(attributes.drop_last().drop_last() =~= Seq::empty());
    assert(class_values(attributes.drop_last()) =~= seq![a]);
    assert(class_values(attributes) =~= seq![a, b]);
    assert(seq![a, b].drop_last() =~= seq![a]);
}

/// Attribute merge: an attribute list with two id shorthands is rejected.
pub proof fn lemma_second_id_is_rejected(
    tag: Seq<char>,
    attributes: Seq<AttributeView>,
    first: int,
    second: int,
)
    requires
        0 <= first < second < attributes.len(),
        attributes[first] is Id,
        attributes[second] is Id,
    ensures
        merged_attributes(tag, attributes) == Err::<Seq<(Seq<char>, Seq<char>)>, CompileErrorView>(
            CompileErrorView::DuplicateIdAttributeError(tag),
        ),
{
    lemma_take_step(attributes, first);
    lemma_take_step(attributes, second);
    lemma_id_count_grows(attributes.take(second), first + 1);
    assert(attributes.take(second).take(first + 1) =~= attributes.take(first + 1));
    lemma_id_count_grows(attributes, second + 1);
}

/// Builds the attributes of the element `tag` from its attribute list.
pub fn merge_attributes(tag: &String, attributes: &Vec<Attribute>) -> (merged: Result<
    Vec<(String, String)>,
    CompileError,
>)
    ensures
        match merged_attributes(tag@, attribute_list_view(attributes@)) {
            Ok(pairs) => merged is Ok && attributes_view(merged->Ok_0@) == pairs,
            Err(error) => merged is Err && merged->Err_0@ == error,
        },
{
    let ghost list = attribute_list_view(attributes@);
    let mut ids: usize = 0;
    let mut classes: String = String::new();
    let mut any_class: bool = false;
    let mut i: usize = 0;
    while i < attributes.len()
        invariant
            i <= attributes.len(),
            list == attribute_list_view(attributes@),
            ids == id_count(list.take(i as int)),
            ids <= i,
            classes@ == join_spaced(class_values(list.take(i as int))),
            any_class == (class_values(list.take(i as int)).len() > 0),
        decreases attributes.len() - i,
    {
        proof {
            lemma_take_step(list, i as int);
        }
        match &attributes[i] {
            Attribute::Id(_) => {
                ids += 1;
            },
            Attribute::Class(value) => {
                let ghost before = class_values(list.take(i as int));
                if any_class {
                    classes.append(" ");
                }
                classes.append(value.as_str());
                proof {
                    assert(before.push(value@).drop_last() =~= before);
                    if before.len() == 0 {
                        assert(classes@ =~= value@);
                    }
                }
                any_class = true;
            },
            Attribute::Pair(_, _) => {},
        }
        i += 1;
    }
    assert(list.take(attributes.len() as int) =~= list);
    if ids >= 2 {
        return Err(CompileError::DuplicateIdAttributeError(tag.clone()));
    }
    let mut pairs: Vec<(String, String)> = Vec::new();
    let mut class_written: bool = false;
    let mut k: usize = 0;
    while k < attributes.len()
        invariant
            k <= attributes.len(),
            list == attribute_list_view(attributes@),
            attributes_view(pairs@) == merged_prefix(list, k as nat),
            class_written == (class_values(list.take(k as int)).len() > 0),
            classes@ == join_spaced(class_values(list)),
        decreases attributes.len() - k,
    {
        proof {
            lemma_take_step(list, k as int);
        }
        let ghost before = pairs@;
        match &attributes[k] {
            Attribute::Pair(name, value) => {
                pairs.push((name.clone(), value.clone()));
                assert(attributes_view(pairs@) =~= attributes_view(before).push((name@, value@)));
            },
            Attribute::Id(value) => {
                pairs.push(("id".to_owned(), value.clone()));
                assert(attributes_view(pairs@) =~= attributes_view(before).push(("id"@, value@)));
            },
            Attribute::Class(_) => {
                if !class_written {
                    pairs.push(("class".to_owned(), classes.clone()));
                    assert(attributes_view(pairs@) =~= attributes_view(before).push(
                        ("class"@, classes@),
                    ));
                    class_written = true;
                }
            },
        }
        k += 1;
    }
    Ok(pairs)
}

} // verus!
