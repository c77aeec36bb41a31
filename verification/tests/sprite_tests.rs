use baby_core::sprite::{
    animate_texture, sprite_animation, AnimationIndices, Cycle, PingPongState,
    SpriteAnimationType, TextureAnimate,
};

#[test]
fn ping_pong_goes_forth_and_back() {
    let anim = TextureAnimate { frame_len: 100, cycle: Cycle::PingPong, idx_beg: 0, idx_end: 4 };
    let got: Vec<usize> = (0..18).map(|n| animate_texture(&anim, n * 100)).collect();
    assert_eq!(got, vec![0, 1, 2, 3, 4, 3, 2, 1, 0, 1, 2, 3, 4, 3, 2, 1, 0, 1]);
}

#[test]
fn loop_starts_over() {
    let anim = TextureAnimate { frame_len: 110, cycle: Cycle::Loop, idx_beg: 1, idx_end: 6 };
    let got: Vec<usize> = (0..14).map(|n| animate_texture(&anim, n * 110)).collect();
    assert_eq!(got, vec![1, 2, 3, 4, 5, 6, 1, 2, 3, 4, 5, 6, 1, 2]);
}

#[test]
fn a_frame_lasts_its_length() {
    let anim = TextureAnimate { frame_len: 100, cycle: Cycle::Loop, idx_beg: 3, idx_end: 5 };
    assert_eq!(animate_texture(&anim, 0), 3);
    assert_eq!(animate_texture(&anim, 99), 3);
    assert_eq!(animate_texture(&anim, 100), 4);
    assert_eq!(animate_texture(&anim, 299), 5);
    assert_eq!(animate_texture(&anim, 300), 3);
}

#[test]
fn shortest_strips() {
    let one = TextureAnimate { frame_len: 1, cycle: Cycle::Loop, idx_beg: 7, idx_end: 7 };
    assert_eq!(animate_texture(&one, 0), 7);
    assert_eq!(animate_texture(&one, u64::MAX), 7);
    let two = TextureAnimate { frame_len: 1, cycle: Cycle::PingPong, idx_beg: 7, idx_end: 8 };
    assert_eq!(animate_texture(&two, 0), 7);
    assert_eq!(animate_texture(&two, 1), 8);
    assert_eq!(animate_texture(&two, 2), 7);
    assert_eq!(animate_texture(&two, u64::MAX), 8);
}

#[test]
fn widest_strip() {
    let all = TextureAnimate {
        frame_len: 1,
        cycle: Cycle::Loop,
        idx_beg: 0,
        idx_end: usize::MAX - 1,
    };
    assert_eq!(animate_texture(&all, 12345), 12345);
    let all = TextureAnimate { cycle: Cycle::PingPong, ..all };
    assert_eq!(animate_texture(&all, u64::MAX), usize::MAX - 2);
}

#[test]
fn stepped_linear_strip_starts_over() {
    let indices = AnimationIndices { first: 2, last: 4 };
    let mut kind = SpriteAnimationType::Linear;
    let mut index = 2;
    let mut seen = vec![];
    for _ in 0..7 {
        index = sprite_animation(&indices, &mut kind, index);
        seen.push(index);
    }
    assert_eq!(seen, vec![3, 4, 2, 3, 4, 2, 3]);
    assert_eq!(kind, SpriteAnimationType::Linear);
    let one = AnimationIndices { first: 9, last: 9 };
    assert_eq!(sprite_animation(&one, &mut kind, 9), 9);
}

#[test]
fn stepped_ping_pong_turns_at_the_ends() {
    let indices = AnimationIndices { first: 1, last: 3 };
    let mut kind = SpriteAnimationType::new_ping_pong();
    assert_eq!(kind, SpriteAnimationType::PingPong(PingPongState::Forward));
    let mut index = 1;
    let mut seen = vec![];
    for _ in 0..9 {
        index = sprite_animation(&indices, &mut kind, index);
        seen.push(index);
    }
    assert_eq!(seen, vec![2, 3, 2, 1, 2, 3, 2, 1, 2]);
    assert_eq!(kind, SpriteAnimationType::PingPong(PingPongState::Forward));
    index = sprite_animation(&indices, &mut kind, 3);
    assert_eq!(index, 2);
    assert_eq!(kind, SpriteAnimationType::PingPong(PingPongState::Backward));
}
