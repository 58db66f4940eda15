use std::io::Cursor;

use ims2tif::config::Config;
use ims2tif::pipeline::convert_volume;
use ims2tif::pipeline::pair_jobs;
use ims2tif::slicer::ImageSlicer;
use ims2tif::volume::Volume;
use tiff::decoder::Decoder;
use tiff::decoder::DecodingResult;
use tiff::encoder::TiffEncoder;
use tiff::encoder::colortype;

fn conf_for(file_name: &str, res_levels: usize, channels: usize) -> Config {
    let mut c = Config::new();
    c.file_name = file_name.to_string();
    c.output_dir = "out".to_string();
    c.res_levels = res_levels;
    c.channels = channels;
    c
}

#[test]
fn pair_jobs_count_and_names() {
    // One output container per (level, channel) pair, named after the
    // source file's stem.
    let conf = conf_for("data/vol.ims", 2, 3);
    let jobs = pair_jobs(&conf);
    assert_eq!(jobs.len(), 6);
    let expected = [
        (0, 0, "vol_Res0_Chan0.tif"),
        (0, 1, "vol_Res0_Chan1.tif"),
        (0, 2, "vol_Res0_Chan2.tif"),
        (1, 0, "vol_Res1_Chan0.tif"),
        (1, 1, "vol_Res1_Chan1.tif"),
        (1, 2, "vol_Res1_Chan2.tif"),
    ];
    for (job, (res, chan, name)) in jobs.iter().zip(expected.iter()) {
        assert_eq!(job.res, *res);
        assert_eq!(job.chan, *chan);
        assert_eq!(job.file_name, *name);
    }
}

#[test]
fn convert_volume_orders_frames() {
    let data: Vec<u16> = (0..12).collect();
    let vol = Volume::new(data, 3, 2, 2).unwrap();
    let conf = conf_for("v.ims", 1, 1);
    let frames = convert_volume(&conf, 0, 0, &vol, 2);
    assert_eq!(frames.len(), 3);
    assert_eq!(frames[0], vec![0, 1, 2, 3]);
    assert_eq!(frames[1], vec![4, 5, 6, 7]);
    assert_eq!(frames[2], vec![8, 9, 10, 11]);
}

fn encode_u8(frames: &[Vec<u8>], width: u32, height: u32) -> Vec<u8> {
    let mut buf = Cursor::new(Vec::new());
    {
        let mut enc = TiffEncoder::new_big(&mut buf).unwrap();
        for f in frames {
            enc.write_image::<colortype::Gray8>(width, height, f).unwrap();
        }
    }
    buf.into_inner()
}

fn encode_u16(frames: &[Vec<u16>], width: u32, height: u32) -> Vec<u8> {
    let mut buf = Cursor::new(Vec::new());
    {
        let mut enc = TiffEncoder::new_big(&mut buf).unwrap();
        for f in frames {
            enc.write_image::<colortype::Gray16>(width, height, f).unwrap();
        }
    }
    buf.into_inner()
}

fn decode_u8(bytes: Vec<u8>) -> Vec<Vec<u8>> {
    let mut dec = Decoder::new(Cursor::new(bytes)).unwrap();
    let mut pages = Vec::new();
    loop {
        match dec.read_image().unwrap() {
            DecodingResult::U8(v) => pages.push(v),
            _ => panic!("expected 8-bit pages"),
        }
        if !dec.more_images() {
            break;
        }
        dec.next_image().unwrap();
    }
    pages
}

fn decode_u16(bytes: Vec<u8>) -> Vec<Vec<u16>> {
    let mut dec = Decoder::new(Cursor::new(bytes)).unwrap();
    let mut pages = Vec::new();
    loop {
        match dec.read_image().unwrap() {
            DecodingResult::U16(v) => pages.push(v),
            _ => panic!("expected 16-bit pages"),
        }
        if !dec.more_images() {
            break;
        }
        dec.next_image().unwrap();
    }
    pages
}

#[test]
fn round_trip_8bit() {
    // Writing a synthetic 8-bit volume through the pipeline and reading all
    // frames back in order reassembles the volume byte for byte.
    let (d0, d1, d2) = (5usize, 4usize, 3usize);
    let data: Vec<u8> = (0..d0 * d1 * d2).map(|i| ((i * 7 + 3) % 251) as u8).collect();
    let vol = Volume::new(data.clone(), d0, d1, d2).unwrap();
    let conf = conf_for("v.ims", 1, 1);
    let frames = convert_volume(&conf, 0, 0, &vol, 2);
    let bytes = encode_u8(&frames, d2 as u32, d1 as u32);
    let pages = decode_u8(bytes);
    assert_eq!(pages.len(), d0);
    let mut reassembled = Vec::new();
    for p in &pages {
        reassembled.extend_from_slice(p);
    }
    assert_eq!(reassembled, data);
}

#[test]
fn round_trip_16bit_transposed_layout() {
    // The source stores the 16-bit variant as (z, y, x). After conversion,
    // page z must show the sample for (z, y, x) at column x of row y: the
    // output is checked in (x, y) pixel order per z-plane, not merely
    // passed through blindly.
    let (nz, ny, nx) = (4usize, 3usize, 5usize);
    let mut data: Vec<u16> = Vec::new();
    for z in 0..nz {
        for y in 0..ny {
            for x in 0..nx {
                data.push((z * 100 + y * 10 + x) as u16);
            }
        }
    }
    let vol = Volume::new(data, nz, ny, nx).unwrap();
    let conf = conf_for("v.ims", 1, 1);
    let frames = convert_volume(&conf, 0, 0, &vol, 3);
    let bytes = encode_u16(&frames, nx as u32, ny as u32);
    let pages = decode_u16(bytes);
    assert_eq!(pages.len(), nz);
    for z in 0..nz {
        assert_eq!(pages[z].len(), ny * nx);
        for y in 0..ny {
            for x in 0..nx {
                // pixel at column x, row y of page z
                assert_eq!(pages[z][y * nx + x], (z * 100 + y * 10 + x) as u16);
            }
        }
    }
}

#[test]
fn scenario_two_levels() {
    // res_levels = 2, channels = 1, volumes (64,10,10) and (40,10,10),
    // slice size 32: two chunks per level (depths 32,32 and 32,8), two
    // output containers with 64 and 40 frames.
    let conf = conf_for("runs/scan.ims", 2, 1);
    let jobs = pair_jobs(&conf);
    assert_eq!(jobs.len(), 2);
    assert_eq!(jobs[0].file_name, "scan_Res0_Chan0.tif");
    assert_eq!(jobs[1].file_name, "scan_Res1_Chan0.tif");

    let vols: Vec<Volume<u16>> = [64usize, 40usize]
        .iter()
        .map(|&d0| {
            let data: Vec<u16> = (0..d0 * 10 * 10).map(|i| (i % 65521) as u16).collect();
            Volume::new(data, d0, 10, 10).unwrap()
        })
        .collect();

    // level 0: spans (0,32), (32,64); level 1: spans (0,32), (32,40)
    let mut s0 = ImageSlicer::new(32, 0, 0, &conf);
    assert_eq!(s0.next_span(vols[0].d0), Some((0, 32)));
    assert_eq!(s0.next_span(vols[0].d0), Some((32, 64)));
    assert_eq!(s0.next_span(vols[0].d0), None);
    let mut s1 = ImageSlicer::new(32, 1, 0, &conf);
    assert_eq!(s1.next_span(vols[1].d0), Some((0, 32)));
    assert_eq!(s1.next_span(vols[1].d0), Some((32, 40)));
    assert_eq!(s1.next_span(vols[1].d0), None);

    let mut page_counts = Vec::new();
    for (job, vol) in jobs.iter().zip(vols.iter()) {
        let frames = convert_volume(&conf, job.res, job.chan, vol, 32);
        let bytes = encode_u16(&frames, 10, 10);
        page_counts.push(decode_u16(bytes).len());
    }
    assert_eq!(page_counts, vec![64, 40]);
}

#[test]
fn read_slab_boundaries() {
    let data: Vec<u16> = (0..24).collect();
    let vol = Volume::new(data, 4, 3, 2).unwrap();
    let slab = vol.read_slab(1, 3).unwrap();
    assert_eq!((slab.d0, slab.d1, slab.d2), (2, 3, 2));
    assert_eq!(slab.data, (6..18).collect::<Vec<u16>>());
    // a read past the extent fails as the end-of-data signal
    assert!(vol.read_slab(4, 5).is_err());
    assert!(vol.read_slab(2, 2).is_err());
    assert!(vol.read_slab(3, 5).is_err());
}

#[test]
fn volume_new_rejects_bad_shape() {
    let data: Vec<u8> = vec![0; 10];
    assert!(Volume::new(data, 2, 2, 2).is_err());
    let empty: Vec<u8> = Vec::new();
    assert!(Volume::new(empty, 0, 5, 5).is_ok());
}

#[test]
fn frame_at_extracts_planes() {
    let data: Vec<u8> = (0..24).map(|i| i as u8).collect();
    let vol = Volume::new(data, 4, 3, 2).unwrap();
    assert_eq!(vol.frame_at(0), (0..6).map(|i| i as u8).collect::<Vec<u8>>());
    assert_eq!(vol.frame_at(3), (18..24).map(|i| i as u8).collect::<Vec<u8>>());
}
