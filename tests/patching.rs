use insert_dylib::bytes::{read_u32_le, swap32};
use insert_dylib::dispatch::{classify_magic, patch, Format, Report};
use insert_dylib::engine::{insert_dylib, pad_path, read_dylib_path};
use insert_dylib::error::PatchError;
use insert_dylib::fat::{cpu_kind, parse_fat, patch_fat, CpuKind, Decider, Question};
use insert_dylib::layout::{DylibCommand, FatArch, FatHeader, MachHeader64};

struct Scripted {
    answers: Vec<bool>,
    asked: Vec<Question>,
}

impl Scripted {
    fn new(answers: Vec<bool>) -> Scripted {
        Scripted { answers, asked: Vec::new() }
    }
}

impl Decider for Scripted {
    fn confirm(&mut self, question: Question) -> bool {
        let answer = self.answers[self.asked.len()];
        self.asked.push(question);
        answer
    }
}

fn le(v: u32) -> [u8; 4] {
    v.to_le_bytes()
}

/// A 64-bit image: header, `sizeofcmds` bytes of 0xAA standing for the
/// existing commands, then `slack` zero bytes.
fn image(ncmds: u32, sizeofcmds: u32, slack: usize) -> Vec<u8> {
    let mut v = Vec::new();
    for w in [0xfeedfacf, 0x0100000c, 0, 2, ncmds, sizeofcmds, 0x85, 0] {
        v.extend_from_slice(&le(w));
    }
    v.extend(std::iter::repeat(0xAAu8).take(sizeofcmds as usize));
    v.extend(std::iter::repeat(0u8).take(slack));
    v
}

/// A fat archive stored big-endian, as on disk: header, table, then each
/// image at its offset.
fn fat_archive(cputypes: &[u32], images: &[Vec<u8>], offsets: &[u32], total: usize) -> Vec<u8> {
    let mut v = vec![0u8; total];
    v[0..4].copy_from_slice(&0xcafebabeu32.to_be_bytes());
    v[4..8].copy_from_slice(&(cputypes.len() as u32).to_be_bytes());
    for (i, c) in cputypes.iter().enumerate() {
        let at = 8 + i * 20;
        let fields = [*c, 0, offsets.get(i).copied().unwrap_or(0), 0x1000, 12];
        for (k, f) in fields.iter().enumerate() {
            v[at + 4 * k..at + 4 * k + 4].copy_from_slice(&f.to_be_bytes());
        }
    }
    for (img, off) in images.iter().zip(offsets) {
        let o = *off as usize;
        v[o..o + img.len()].copy_from_slice(img);
    }
    v
}

fn path_bytes(s: &str) -> Vec<u8> {
    s.as_bytes().to_vec()
}

#[test]
fn pad_path_adds_one_to_eight_zeros() {
    let p = pad_path(&path_bytes("abc"));
    assert_eq!(p, vec![b'a', b'b', b'c', 0, 0, 0, 0, 0]);
    let q = pad_path(&path_bytes("abcdefgh"));
    assert_eq!(q.len(), 16);
    assert_eq!(&q[8..], &[0u8; 8]);
    assert_eq!(pad_path(&Vec::new()), vec![0u8; 8]);
}

#[test]
fn command_size_is_multiple_of_eight() {
    for n in 1..40usize {
        let path = vec![b'x'; n];
        let mut data = image(0, 0, 128);
        let ins = insert_dylib(&mut data, 0, &pad_path(&path)).unwrap();
        assert_eq!(ins.cmdsize % 8, 0);
        assert!(ins.cmdsize as usize > 24 + n);
    }
}

#[test]
fn words_read_little_endian_and_swap() {
    let data = vec![0xcf, 0xfa, 0xed, 0xfe, 1];
    assert_eq!(read_u32_le(&data, 0), 0xfeedfacf);
    assert_eq!(swap32(0x12345678, true), 0x78563412);
    assert_eq!(swap32(0x12345678, false), 0x12345678);
}

#[test]
fn magic_numbers_route() {
    assert_eq!(classify_magic(0xfeedfacf), Ok(Format::MachO64));
    assert_eq!(classify_magic(0xfeedface), Err(PatchError::UnsupportedFormat(0xfeedface)));
    assert_eq!(classify_magic(0xcafebabe), Ok(Format::Fat { swap: false }));
    assert_eq!(classify_magic(0xbebafeca), Ok(Format::Fat { swap: true }));
    assert_eq!(classify_magic(0x7f454c46), Err(PatchError::UnknownMagic(0x7f454c46)));
}

#[test]
fn cpu_types_classify() {
    assert_eq!(cpu_kind(0x1000007), Some(CpuKind::X86_64));
    assert_eq!(cpu_kind(0x100000c), Some(CpuKind::Arm64));
    assert_eq!(cpu_kind(7), None);
}

#[test]
fn insertion_updates_header_and_appends_command() {
    let mut data = image(2, 16, 64);
    let before = data.clone();
    let payload = pad_path(&path_bytes("/usr/lib/libFoo.dylib"));
    let ins = insert_dylib(&mut data, 0, &payload).unwrap();
    assert_eq!(ins.base, 0);
    assert_eq!(ins.offset, 48);
    assert_eq!(ins.cmdsize, 48);
    let h = MachHeader64::decode(&data, 0);
    assert_eq!(h.ncmds, 3);
    assert_eq!(h.sizeofcmds, 64);
    assert_eq!(h.magic, 0xfeedfacf);
    assert_eq!(h.cpu_type, 0x0100000c);
    assert_eq!(h.flags, 0x85);
    let c = DylibCommand::decode(&data, 48);
    assert_eq!(
        c,
        DylibCommand {
            cmd: 0xc,
            cmdsize: 48,
            name: 24,
            timestamp: 0,
            current_version: 0,
            compatibility_version: 0
        }
    );
    assert_eq!(&data[72..96], &payload[..]);
    assert_eq!(data.len(), before.len());
    assert_eq!(&data[32..48], &before[32..48]);
    assert_eq!(&data[96..], &before[96..]);
}

#[test]
fn insertion_at_end_of_data_grows_it() {
    let mut data = image(0, 0, 0);
    let ins = insert_dylib(&mut data, 0, &pad_path(&path_bytes("/a"))).unwrap();
    assert_eq!(ins.offset, 32);
    assert_eq!(data.len(), 32 + 32);
}

#[test]
fn path_round_trip() {
    let mut data = image(1, 8, 64);
    let mut d = Scripted::new(vec![]);
    let r = patch(&mut data, &path_bytes("/usr/lib/libFoo.dylib"), &mut d).unwrap();
    let offset = match r {
        Report::MachO64(ins) => ins.offset,
        Report::Fat { .. } => panic!("not a fat archive"),
    };
    assert_eq!(offset, 40);
    assert_eq!(read_dylib_path(&data, offset), Some(path_bytes("/usr/lib/libFoo.dylib")));
    assert!(d.asked.is_empty());
}

#[test]
fn read_back_refuses_other_commands() {
    let data = image(1, 8, 64);
    assert_eq!(read_dylib_path(&data, 40), None);
    assert_eq!(read_dylib_path(&data, 1000), None);
}

#[test]
fn applying_twice_chains_two_commands() {
    let mut data = image(1, 8, 128);
    let mut d = Scripted::new(vec![]);
    let path = path_bytes("/usr/lib/libFoo.dylib");
    patch(&mut data, &path, &mut d).unwrap();
    patch(&mut data, &path, &mut d).unwrap();
    let h = MachHeader64::decode(&data, 0);
    assert_eq!(h.ncmds, 3);
    assert_eq!(h.sizeofcmds, 8 + 2 * 48);
    assert_eq!(read_dylib_path(&data, 40), Some(path.clone()));
    assert_eq!(read_dylib_path(&data, 88), Some(path));
}

#[test]
fn truncated_header_refused() {
    let mut data = image(0, 0, 0);
    data.truncate(20);
    let before = data.clone();
    assert_eq!(insert_dylib(&mut data, 0, &pad_path(&path_bytes("/a"))), Err(PatchError::TruncatedHeader));
    assert_eq!(data, before);
    let mut tiny = vec![0xcf, 0xfa];
    let mut d = Scripted::new(vec![]);
    assert!(matches!(patch(&mut tiny, &path_bytes("/a"), &mut d), Err(PatchError::TruncatedHeader)));
}

#[test]
fn occupied_space_refused() {
    let mut data = image(1, 8, 64);
    data[60] = 0x5a;
    let before = data.clone();
    let r = insert_dylib(&mut data, 0, &pad_path(&path_bytes("/usr/lib/libFoo.dylib")));
    assert_eq!(r, Err(PatchError::Inconsistent));
    assert_eq!(data, before);
}

#[test]
fn commands_past_end_refused() {
    let mut data = image(1, 8, 0);
    data.truncate(36);
    let r = insert_dylib(&mut data, 0, &pad_path(&path_bytes("/a")));
    assert_eq!(r, Err(PatchError::Inconsistent));
}

#[test]
fn command_count_overflow_refused() {
    let mut data = image(u32::MAX, 0, 64);
    let r = insert_dylib(&mut data, 0, &pad_path(&path_bytes("/a")));
    assert_eq!(r, Err(PatchError::Inconsistent));
}

#[test]
fn unknown_and_32_bit_magic_refused() {
    let mut d = Scripted::new(vec![]);
    let mut elf = vec![0x7f, b'E', b'L', b'F', 0, 0, 0, 0];
    assert!(matches!(patch(&mut elf, &path_bytes("/a"), &mut d), Err(PatchError::UnknownMagic(0x464c457f))));
    let mut old = image(0, 0, 64);
    old[0] = 0xce;
    let before = old.clone();
    assert!(matches!(patch(&mut old, &path_bytes("/a"), &mut d), Err(PatchError::UnsupportedFormat(0xfeedface))));
    assert_eq!(old, before);
}

#[test]
fn empty_fat_table_refused() {
    let mut data = fat_archive(&[], &[], &[], 64);
    let before = data.clone();
    let mut d = Scripted::new(vec![]);
    assert!(matches!(patch(&mut data, &path_bytes("/a"), &mut d), Err(PatchError::NoArchitectures)));
    assert_eq!(data, before);
    assert!(d.asked.is_empty());
}

#[test]
fn fat_header_decodes_in_declared_order() {
    let data = fat_archive(&[0x1000007], &[], &[64], 128);
    let h = FatHeader::decode(&data, true);
    assert_eq!(h.nfat_arch, 1);
    assert_eq!(h.magic, 0xbebafeca);
    let a = FatArch::decode(&data, 8, true);
    assert_eq!(a.cputype, 0x1000007);
    assert_eq!(a.offset, 64);
    assert_eq!(a.align, 12);
    assert_eq!(parse_fat(&data, true).unwrap(), vec![a]);
}

#[test]
fn fat_two_archs_apply_all() {
    let img = image(1, 8, 64);
    let mut data = fat_archive(&[0x1000007, 0x100000c], &[img.clone(), img.clone()], &[64, 256], 512);
    let before = data.clone();
    let mut d = Scripted::new(vec![true]);
    let path = path_bytes("/usr/lib/libFoo.dylib");
    let r = patch(&mut data, &path, &mut d).unwrap();
    assert_eq!(d.asked, vec![Question::ApplyToAll { count: 2 }]);
    let outcome = match r {
        Report::Fat { swap, outcome } => {
            assert!(swap);
            outcome
        }
        Report::MachO64(_) => panic!("not a plain image"),
    };
    assert_eq!(outcome.apply_all, Some(true));
    let offsets: Vec<u64> = outcome.insertions.iter().map(|i| i.unwrap().offset).collect();
    assert_eq!(offsets, vec![64 + 40, 256 + 40]);
    for base in [64usize, 256] {
        let h = MachHeader64::decode(&data, base);
        assert_eq!(h.ncmds, 2);
        assert_eq!(h.sizeofcmds, 56);
        assert_eq!(read_dylib_path(&data, base as u64 + 40), Some(path.clone()));
    }
    assert_eq!(&data[..64], &before[..64]);
}

#[test]
fn fat_declined_all_asks_each() {
    let img = image(0, 0, 64);
    let mut data = fat_archive(
        &[0x1000007, 0x100000c, 0x1000007],
        &[img.clone(), img.clone(), img.clone()],
        &[128, 256, 384],
        512,
    );
    let before = data.clone();
    let mut d = Scripted::new(vec![false, false, true, false]);
    let r = patch(&mut data, &path_bytes("/a"), &mut d).unwrap();
    assert_eq!(
        d.asked,
        vec![
            Question::ApplyToAll { count: 3 },
            Question::PatchArch { index: 0, cputype: 0x1000007 },
            Question::PatchArch { index: 1, cputype: 0x100000c },
            Question::PatchArch { index: 2, cputype: 0x1000007 },
        ]
    );
    let outcome = match r {
        Report::Fat { outcome, .. } => outcome,
        Report::MachO64(_) => panic!("not a plain image"),
    };
    assert_eq!(outcome.insertions[0], None);
    assert!(outcome.insertions[1].is_some());
    assert_eq!(outcome.insertions[2], None);
    assert_eq!(&data[128..160], &before[128..160]);
    assert_eq!(MachHeader64::decode(&data, 256).ncmds, 1);
    assert_eq!(&data[384..416], &before[384..416]);
}

#[test]
fn fat_single_arch_patched_without_asking() {
    let img = image(0, 0, 64);
    let mut data = fat_archive(&[0x100000c], &[img], &[64], 192);
    let mut d = Scripted::new(vec![]);
    let outcome = patch_fat(&mut data, true, &pad_path(&path_bytes("/a")), &mut d).unwrap();
    assert!(d.asked.is_empty());
    assert_eq!(outcome.apply_all, None);
    assert_eq!(MachHeader64::decode(&data, 64).ncmds, 1);
}

#[test]
fn fat_native_order_reads_without_swap() {
    let img = image(0, 0, 64);
    let mut data = vec![0u8; 192];
    data[0..4].copy_from_slice(&le(0xcafebabe));
    data[4..8].copy_from_slice(&le(1));
    for (k, f) in [0x1000007u32, 3, 64, 96, 12].iter().enumerate() {
        data[8 + 4 * k..12 + 4 * k].copy_from_slice(&le(*f));
    }
    data[64..64 + img.len()].copy_from_slice(&img);
    let mut d = Scripted::new(vec![]);
    let r = patch(&mut data, &path_bytes("/a"), &mut d).unwrap();
    assert!(matches!(r, Report::Fat { swap: false, .. }));
    assert_eq!(MachHeader64::decode(&data, 64).ncmds, 1);
}

#[test]
fn fat_unsupported_arch_leaves_file_unchanged() {
    let img = image(0, 0, 64);
    let mut data = fat_archive(&[0x1000007, 0x7], &[img.clone(), img], &[128, 256], 512);
    let before = data.clone();
    let mut d = Scripted::new(vec![true]);
    let r = patch(&mut data, &path_bytes("/a"), &mut d);
    assert!(matches!(r, Err(PatchError::UnsupportedArchitecture(7))));
    assert_eq!(data, before);
    assert!(d.asked.is_empty());
}

#[test]
fn fat_truncated_table_refused() {
    let mut data = fat_archive(&[0x1000007, 0x100000c], &[], &[], 64);
    data.truncate(30);
    let mut d = Scripted::new(vec![true]);
    assert!(matches!(patch(&mut data, &path_bytes("/a"), &mut d), Err(PatchError::TruncatedHeader)));
}

#[test]
fn fat_image_failure_undoes_earlier_images() {
    let img = image(0, 0, 64);
    let mut bad = image(0, 0, 64);
    bad[40] = 1;
    let mut data = fat_archive(&[0x1000007, 0x100000c], &[img, bad], &[128, 256], 512);
    let before = data.clone();
    let mut d = Scripted::new(vec![true]);
    let r = patch(&mut data, &path_bytes("/a"), &mut d);
    assert!(matches!(r, Err(PatchError::Inconsistent)));
    assert_eq!(data, before);
}
