//! Restore marks: the marks on windows that remember the frame to go back to.

use vstd::prelude::*;
use vstd::string::*;
use crate::sway_ipc::Rect;
use crate::text::{
    decimal, decimal_reads_back, is_digit, part_views, signed_decimal, signed_decimal_reads_back,
    split_first, split_on, split_whole,
};
use crate::text::{
    characters, decimal_text, join, parse_i32, rest_of, signed_decimal_text, split_chars,
    starts_with,
};

verus! {

/// What the restore marks of the window `container` begin with.
pub open spec fn mark_prefix(container: nat) -> Seq<char> {
    "__buzzardos_restore_v1_"@ + decimal(container) + seq!['_']
}

/// The numbers of a frame as a mark lists them.
pub open spec fn mark_numbers(frame: Rect) -> Seq<char> {
    signed_decimal(frame.x as int).push('_') + (signed_decimal(frame.y as int).push('_') + (
    signed_decimal(frame.width as int).push('_') + signed_decimal(frame.height as int)))
}

/// The mark that remembers `frame` for the window `container`.
pub open spec fn restore_mark_of(container: nat, frame: Rect) -> Seq<char> {
    mark_prefix(container) + mark_numbers(frame)
}

/// The frame that a mark remembers for the window `container`: the one of which it is the mark,
/// where there is one that is not empty.
pub open spec fn marked_frame(mark: Seq<char>, container: nat) -> Option<Rect> {
    if exists|frame: Rect|
        frame.width > 0 && frame.height > 0 && mark == #[trigger] restore_mark_of(
            container,
            frame,
        ) {
        Some(
            choose|frame: Rect|
                frame.width > 0 && frame.height > 0 && mark == #[trigger] restore_mark_of(
                    container,
                    frame,
                ),
        )
    } else {
        None
    }
}

/// A signed decimal numeral holds no underscore.
proof fn numeral_without_separator(number: int)
    ensures
        !signed_decimal(number).contains('_'),
{
    let magnitude = (if number < 0 {
        -number
    } else {
        number
    }) as nat;
    decimal_reads_back(magnitude);
    let text = signed_decimal(number);
    assert forall|at: int| 0 <= at < text.len() implies text[at] != '_' by {
        if number < 0 {
            if at > 0 {
                assert(text[at] == decimal(magnitude)[at - 1]);
                assert(is_digit(decimal(magnitude)[at - 1]));
            }
        } else {
            assert(is_digit(decimal(magnitude)[at]));
        }
    }
}

/// The numbers of a mark are its parts between underscores.
proof fn numbers_split(frame: Rect)
    ensures
        split_on(mark_numbers(frame), '_') == seq![
            signed_decimal(frame.x as int),
            signed_decimal(frame.y as int),
            signed_decimal(frame.width as int),
            signed_decimal(frame.height as int),
        ],
{
    let x = signed_decimal(frame.x as int);
    let y = signed_decimal(frame.y as int);
    let width = signed_decimal(frame.width as int);
    let height = signed_decimal(frame.height as int);
    numeral_without_separator(frame.x as int);
    numeral_without_separator(frame.y as int);
    numeral_without_separator(frame.width as int);
    numeral_without_separator(frame.height as int);
    split_whole(height, '_');
    split_first(width, height, '_');
    split_first(y, width.push('_') + height, '_');
    split_first(x, y.push('_') + (width.push('_') + height), '_');
    assert(split_on(mark_numbers(frame), '_') =~= seq![x, y, width, height]);
}

/// A mark remembers one frame only.
pub proof fn marks_are_unambiguous(container: nat, left: Rect, right: Rect)
    requires
        restore_mark_of(container, left) == restore_mark_of(container, right),
    ensures
        left == right,
{
    let prefix = mark_prefix(container);
    assert(restore_mark_of(container, left).skip(prefix.len() as int) =~= mark_numbers(left));
    assert(restore_mark_of(container, right).skip(prefix.len() as int) =~= mark_numbers(right));
    numbers_split(left);
    numbers_split(right);
    let parts = split_on(mark_numbers(left), '_');
    assert(parts[0] == signed_decimal(right.x as int));
    assert(parts[1] == signed_decimal(right.y as int));
    assert(parts[2] == signed_decimal(right.width as int));
    assert(parts[3] == signed_decimal(right.height as int));
    signed_decimal_reads_back(left.x as int);
    signed_decimal_reads_back(left.y as int);
    signed_decimal_reads_back(left.width as int);
    signed_decimal_reads_back(left.height as int);
    signed_decimal_reads_back(right.x as int);
    signed_decimal_reads_back(right.y as int);
    signed_decimal_reads_back(right.width as int);
    signed_decimal_reads_back(right.height as int);
}

/// What a mark remembers for a window is the frame that was marked, where that is not empty.
pub proof fn marked_frame_is_recovered(container: nat, frame: Rect)
    requires
        frame.width > 0,
        frame.height > 0,
    ensures
        marked_frame(restore_mark_of(container, frame), container) == Some(frame),
{
    let mark = restore_mark_of(container, frame);
    let found = marked_frame(mark, container)->0;
    assert(mark == restore_mark_of(container, frame));
    marks_are_unambiguous(container, found, frame);
}

/// The mark of one window says nothing about another.
pub proof fn marks_belong_to_one_window(container: nat, other: nat, frame: Rect)
    requires
        container != other,
    ensures
        marked_frame(restore_mark_of(container, frame), other) is None,
{
    let mark = restore_mark_of(container, frame);
    if marked_frame(mark, other) is Some {
        let found = marked_frame(mark, other)->0;
        assert(mark == restore_mark_of(other, found));
        let name = "__buzzardos_restore_v1_"@;
        let left = decimal(container).push('_') + mark_numbers(frame);
        let right = decimal(other).push('_') + mark_numbers(found);
        assert(mark.skip(name.len() as int) =~= left);
        assert(restore_mark_of(other, found).skip(name.len() as int) =~= right);
        decimal_reads_back(container);
        decimal_reads_back(other);
        assert(!decimal(container).contains('_')) by {
            assert forall|at: int| 0 <= at < decimal(container).len() implies decimal(
                container,
            )[at] != '_' by {
                assert(is_digit(decimal(container)[at]));
            }
        }
        assert(!decimal(other).contains('_')) by {
            assert forall|at: int| 0 <= at < decimal(other).len() implies decimal(other)[at]
                != '_' by {
                assert(is_digit(decimal(other)[at]));
            }
        }
        split_first(decimal(container), mark_numbers(frame), '_');
        split_first(decimal(other), mark_numbers(found), '_');
        assert(split_on(left, '_')[0] == decimal(container));
        assert(split_on(right, '_')[0] == decimal(other));
    }
}

/// The mark that remembers `rect` for the window `container_id`.
pub fn restore_mark(container_id: u64, rect: Rect) -> (mark: String)
    ensures
        mark@ == restore_mark_of(container_id as nat, rect),
{
    let mut mark = join("__buzzardos_restore_v1_", decimal_text(container_id).as_str());
    mark.push('_');
    mark.append(signed_decimal_text(rect.x).as_str());
    mark.push('_');
    mark.append(signed_decimal_text(rect.y).as_str());
    mark.push('_');
    mark.append(signed_decimal_text(rect.width).as_str());
    mark.push('_');
    mark.append(signed_decimal_text(rect.height).as_str());
    assert(mark@ =~= restore_mark_of(container_id as nat, rect));
    mark
}

/// The frame that `mark` remembers for the window `container_id`, where it is one of its marks.
pub fn parse_restore_mark(mark: &String, container_id: u64) -> (frame: Option<Rect>)
    ensures
        frame == marked_frame(mark@, container_id as nat),
{
    let ghost container = container_id as nat;
    let chars = characters(mark.as_str());
    let mut prefix = join("__buzzardos_restore_v1_", decimal_text(container_id).as_str());
    prefix.push('_');
    assert(prefix@ =~= mark_prefix(container));
    proof {
        if let Some(frame) = marked_frame(mark@, container) {
            assert(mark@.take(prefix@.len() as int) =~= prefix@);
            assert(mark@.skip(prefix@.len() as int) =~= mark_numbers(frame));
            numbers_split(frame);
            signed_decimal_reads_back(frame.x as int);
            signed_decimal_reads_back(frame.y as int);
            signed_decimal_reads_back(frame.width as int);
            signed_decimal_reads_back(frame.height as int);
        }
    }
    if !starts_with(chars.as_slice(), prefix.as_str()) {
        return None;
    }
    let numbers = rest_of(chars.as_slice(), prefix.as_str().unicode_len());
    let parts = split_chars(numbers.as_slice(), '_');
    let ghost views = part_views(parts@);
    assert(views.len() == parts@.len());
    if parts.len() != 4 {
        return None;
    }
    assert(views[0] == parts@[0]@ && views[1] == parts@[1]@ && views[2] == parts@[2]@ && views[3]
        == parts@[3]@);
    let x = parse_i32(parts[0].as_slice());
    let y = parse_i32(parts[1].as_slice());
    let width = parse_i32(parts[2].as_slice());
    let height = parse_i32(parts[3].as_slice());
    if x.is_none() || y.is_none() || width.is_none() || height.is_none() {
        return None;
    }
    let rect = Rect {
        x: x.unwrap(),
        y: y.unwrap(),
        width: width.unwrap(),
        height: height.unwrap(),
    };
    if rect.width <= 0 || rect.height <= 0 {
        return None;
    }
    let expected = restore_mark(container_id, rect);
    if expected == *mark {
        proof {
            marked_frame_is_recovered(container, rect);
        }
        Some(rect)
    } else {
        None
    }
}

} // verus!
