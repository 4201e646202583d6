use std::collections::HashMap;

use dioptase::dma::{
    SdDma, CTRL_DIR_RAM_TO_SD, CTRL_IRQ_EN, CTRL_START, DMA_CTRL, DMA_ERR, DMA_LEN, DMA_MEM_ADDR, DMA_SD_BLOCK,
    DMA_STATUS, SD0_DMA, STATUS_BUSY, STATUS_DONE, STATUS_ERR,
};
use dioptase::memory::{Memory, SD_INTERRUPT_BIT};

fn setup(len: u32, ctrl: u32) -> (SdDma, Memory) {
    let mut dma = SdDma::new(SD0_DMA, SD_INTERRUPT_BIT, 0);
    let mut image = vec![0u8; 1024];
    for i in 0..8 {
        image[512 + i] = (i + 1) as u8;
    }
    dma.load_sd_image(image);
    let mut m = Memory::new(HashMap::new(), false);
    m.write32(SD0_DMA + DMA_MEM_ADDR, 0x5000).unwrap();
    m.write32(SD0_DMA + DMA_SD_BLOCK, 1).unwrap();
    m.write32(SD0_DMA + DMA_LEN, len).unwrap();
    m.write32(SD0_DMA + DMA_CTRL, ctrl).unwrap();
    (dma, m)
}

#[test]
fn card_to_memory_transfer() {
    let (mut dma, mut m) = setup(8, CTRL_START | CTRL_IRQ_EN);
    dma.tick(&mut m);
    assert_eq!(m.read32(SD0_DMA + DMA_STATUS), Ok(STATUS_BUSY));
    assert_eq!(m.read32(SD0_DMA + DMA_CTRL), Ok(CTRL_IRQ_EN));
    dma.tick(&mut m);
    dma.tick(&mut m);
    assert_eq!(m.read32(SD0_DMA + DMA_STATUS), Ok(STATUS_DONE));
    assert_eq!(m.read32(0x5000), Ok(0x0403_0201));
    assert_eq!(m.read32(0x5004), Ok(0x0807_0605));
    assert_eq!(m.check_interrupts(), SD_INTERRUPT_BIT);
}

#[test]
fn memory_to_card_transfer() {
    let (mut dma, mut m) = setup(4, CTRL_START | CTRL_DIR_RAM_TO_SD);
    m.write32(0x5000, 0xAABB_CCDD).unwrap();
    dma.tick(&mut m);
    dma.tick(&mut m);
    assert_eq!(m.read32(SD0_DMA + DMA_STATUS), Ok(STATUS_DONE));
    assert_eq!(dma.sd_image()[512..516].to_vec(), vec![0xDD, 0xCC, 0xBB, 0xAA]);
    assert_eq!(m.check_interrupts(), 0);
}

#[test]
fn zero_length_and_busy_errors() {
    let (mut dma, mut m) = setup(3, CTRL_START);
    dma.tick(&mut m);
    assert_eq!(m.read32(SD0_DMA + DMA_ERR), Ok(2));
    assert_eq!(m.read32(SD0_DMA + DMA_STATUS), Ok(STATUS_DONE | STATUS_ERR));
    let (mut dma, mut m) = setup(8, CTRL_START);
    dma.tick(&mut m);
    m.write32(SD0_DMA + DMA_CTRL, CTRL_START).unwrap();
    dma.tick(&mut m);
    assert_eq!(m.read32(SD0_DMA + DMA_ERR), Ok(1));
    assert_eq!(m.read32(SD0_DMA + DMA_STATUS), Ok(STATUS_BUSY | STATUS_DONE | STATUS_ERR));
}
