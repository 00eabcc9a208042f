use firefly::cat001::decode_legacy_reports;
use firefly::cat002::decode_legacy_service_messages;
use firefly::cat019::decode_mlat_status;
use firefly::cat020::decode_mlat_reports;
use firefly::cat021::decode_adsb_reports;
use firefly::cat034::decode_service_messages;
use firefly::cat048::decode_target_reports;
use firefly::cat062::decode_data_block;
use firefly::cat063::decode_sensor_block;
use firefly::cat065::decode_status_block;

/// A small deterministic generator of byte soups.
struct Soup(u64);

impl Soup {
    fn next(&mut self) -> u8 {
        self.0 = self.0.wrapping_mul(6364136223846793005).wrapping_add(1442695040888963407);
        (self.0 >> 33) as u8
    }

    fn bytes(&mut self, category: u8) -> Vec<u8> {
        let len = (self.next() as usize) % 64;
        let mut v: Vec<u8> = (0..len).map(|_| self.next()).collect();
        if len >= 3 && self.next() % 2 == 0 {
            // The right category and a consistent length, so that the
            // record walk itself is exercised.
            v[0] = category;
            v[1] = 0;
            v[2] = len as u8;
        }
        v
    }
}

#[test]
fn decoders_are_total_over_arbitrary_bytes() {
    let mut soup = Soup(0x5eed);
    for _ in 0..4000 {
        let _ = decode_legacy_reports(&soup.bytes(1));
        let _ = decode_legacy_service_messages(&soup.bytes(2));
        let _ = decode_mlat_status(&soup.bytes(19));
        let _ = decode_mlat_reports(&soup.bytes(20));
        let _ = decode_adsb_reports(&soup.bytes(21));
        let _ = decode_service_messages(&soup.bytes(34));
        let _ = decode_target_reports(&soup.bytes(48));
        let _ = decode_data_block(&soup.bytes(62));
        let _ = decode_sensor_block(&soup.bytes(63));
        let _ = decode_status_block(&soup.bytes(65));
    }
}
